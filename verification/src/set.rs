//! Ledger-set manifests and set-level id allocation.
use vstd::prelude::*;

use std::ops::Range;
use crate::text::{debug_quoted, debug_text, push_int, signed_decimal, string_from_chars};

verus! {

/// What a ledger set records about itself: its label, the next canonical
/// ids, and the years it holds.
#[derive(Clone, Debug, PartialEq, Eq)]
pub struct SetManifest {
    /// Human label of the set.
    pub label: String,
    /// Next canonical voucher id.
    pub next_voucher_id: i64,
    /// Next canonical posting id.
    pub next_posting_id: i64,
    /// Imported ledger years, ascending.
    pub years: Vec<i32>,
}

/// Failure to reserve a block of canonical ids.
#[derive(Clone, Debug, PartialEq, Eq)]
pub enum IdAllocationError {
    /// A negative number of ids was requested.
    NegativeCount {
        /// The kind of row the ids are for.
        row_kind: &'static str,
        /// The requested count.
        count: i64,
    },
    /// The cursor is negative.
    NegativeCursor {
        /// The kind of row the ids are for.
        row_kind: &'static str,
        /// The cursor value.
        start: i64,
    },
    /// The block would run past the largest id.
    CursorOverflow {
        /// The kind of row the ids are for.
        row_kind: &'static str,
        /// The cursor value.
        start: i64,
        /// The requested count.
        count: i64,
    },
}

/// What reserving `n` ids at `cursor` gives: the block, or the error.
pub open spec fn reservation(row_kind: &'static str, cursor: i64, n: i64) -> Result<(i64, i64), IdAllocationError> {
    if n < 0 {
        Err(IdAllocationError::NegativeCount { row_kind, count: n })
    } else if cursor < 0 {
        Err(IdAllocationError::NegativeCursor { row_kind, start: cursor })
    } else if cursor + n > i64::MAX {
        Err(IdAllocationError::CursorOverflow { row_kind, start: cursor, count: n })
    } else {
        Ok((cursor, (cursor + n) as i64))
    }
}

/// Reserve `n` consecutive ids at `cursor` and advance it past them. On
/// failure the cursor is left as it was.
pub fn reserve_ids(row_kind: &'static str, cursor: &mut i64, n: i64) -> (r: Result<Range<i64>, IdAllocationError>)
    ensures
        match reservation(row_kind, *old(cursor), n) {
            Ok((start, end)) => r matches Ok(range) && range.start == start && range.end == end && *final(cursor) == end,
            Err(e) => r == Err::<Range<i64>, IdAllocationError>(e) && *final(cursor) == *old(cursor),
        },
{
    if n < 0 {
        return Err(IdAllocationError::NegativeCount { row_kind, count: n });
    }
    let start = *cursor;
    if start < 0 {
        return Err(IdAllocationError::NegativeCursor { row_kind, start });
    }
    let end = match start.checked_add(n) {
        Some(end) => end,
        None => {
            return Err(IdAllocationError::CursorOverflow { row_kind, start, count: n });
        },
    };
    *cursor = end;
    Ok(start..end)
}

impl SetManifest {
    /// The manifest of a new, empty set: ids start at one.
    pub fn new(label: &str) -> (m: SetManifest)
        ensures
            m.label@ == label@,
            m.next_voucher_id == 1,
            m.next_posting_id == 1,
            m.years@.len() == 0,
    {
        SetManifest { label: label.to_owned(), next_voucher_id: 1, next_posting_id: 1, years: Vec::new() }
    }

    /// Reserve `n` canonical voucher ids.
    pub fn alloc_voucher_ids(&mut self, n: i64) -> (r: Result<Range<i64>, IdAllocationError>)
        ensures
            final(self).label == old(self).label,
            final(self).years == old(self).years,
            final(self).next_posting_id == old(self).next_posting_id,
            match reservation("voucher", old(self).next_voucher_id, n) {
                Ok((start, end)) => r matches Ok(range) && range.start == start && range.end == end
                    && final(self).next_voucher_id == end,
                Err(e) => r == Err::<Range<i64>, IdAllocationError>(e) && final(self).next_voucher_id
                    == old(self).next_voucher_id,
            },
    {
        reserve_ids("voucher", &mut self.next_voucher_id, n)
    }

    /// Reserve `n` canonical posting ids.
    pub fn alloc_posting_ids(&mut self, n: i64) -> (r: Result<Range<i64>, IdAllocationError>)
        ensures
            final(self).label == old(self).label,
            final(self).years == old(self).years,
            final(self).next_voucher_id == old(self).next_voucher_id,
            match reservation("posting", old(self).next_posting_id, n) {
                Ok((start, end)) => r matches Ok(range) && range.start == start && range.end == end
                    && final(self).next_posting_id == end,
                Err(e) => r == Err::<Range<i64>, IdAllocationError>(e) && final(self).next_posting_id
                    == old(self).next_posting_id,
            },
    {
        reserve_ids("posting", &mut self.next_posting_id, n)
    }
}

/// Reserving ids never hands out an id twice: the next block starts where the
/// previous one ended, so blocks reserved one after another do not overlap.
pub proof fn lemma_reservations_do_not_overlap(row_kind: &'static str, cursor: i64, n: i64, m: i64)
    requires
        reservation(row_kind, cursor, n) is Ok,
        reservation(row_kind, reservation(row_kind, cursor, n)->Ok_0.1, m) is Ok,
    ensures
        ({
            let (s1, e1) = reservation(row_kind, cursor, n)->Ok_0;
            let (s2, e2) = reservation(row_kind, e1, m)->Ok_0;
            s1 <= e1 == s2 <= e2 && e2 - s1 == n + m
        }),
{
}

/// What an id allocation failure says, for people: its `Debug` form.
pub open spec fn id_allocation_text(e: IdAllocationError) -> Seq<char> {
    match e {
        IdAllocationError::NegativeCount { row_kind, count } => "NegativeCount { row_kind: "@ + debug_text(row_kind@)
            + ", count: "@ + signed_decimal(count as int) + " }"@,
        IdAllocationError::NegativeCursor { row_kind, start } => "NegativeCursor { row_kind: "@ + debug_text(row_kind@)
            + ", start: "@ + signed_decimal(start as int) + " }"@,
        IdAllocationError::CursorOverflow { row_kind, start, count } => "CursorOverflow { row_kind: "@ + debug_text(
            row_kind@,
        ) + ", start: "@ + signed_decimal(start as int) + ", count: "@ + signed_decimal(count as int) + " }"@,
    }
}

impl IdAllocationError {
    /// What went wrong, for people.
    pub fn message(&self) -> (r: String)
        ensures
            r@ == id_allocation_text(*self),
    {
        let mut out: Vec<char> = Vec::new();
        match self {
            IdAllocationError::NegativeCount { row_kind, count } => {
                crate::text::push_str(&mut out, "NegativeCount { row_kind: ");
                let q = debug_quoted(row_kind);
                crate::text::push_str(&mut out, q.as_str());
                crate::text::push_str(&mut out, ", count: ");
                push_int(&mut out, *count as i128);
                crate::text::push_str(&mut out, " }");
            },
            IdAllocationError::NegativeCursor { row_kind, start } => {
                crate::text::push_str(&mut out, "NegativeCursor { row_kind: ");
                let q = debug_quoted(row_kind);
                crate::text::push_str(&mut out, q.as_str());
                crate::text::push_str(&mut out, ", start: ");
                push_int(&mut out, *start as i128);
                crate::text::push_str(&mut out, " }");
            },
            IdAllocationError::CursorOverflow { row_kind, start, count } => {
                crate::text::push_str(&mut out, "CursorOverflow { row_kind: ");
                let q = debug_quoted(row_kind);
                crate::text::push_str(&mut out, q.as_str());
                crate::text::push_str(&mut out, ", start: ");
                push_int(&mut out, *start as i128);
                crate::text::push_str(&mut out, ", count: ");
                push_int(&mut out, *count as i128);
                crate::text::push_str(&mut out, " }");
            },
        }
        string_from_chars(out.as_slice())
    }
}

} // verus!
