//! HSQLDB cached-table row traversal.
use vstd::prelude::*;

use crate::hsqldb::bytes::be_signed;
use crate::hsqldb::row::{
    cell_at, read_cell, read_i32, take_at, Cell, CellValue, HsqlError, HsqlErrorKind,
};
use crate::script::ColType;

verus! {

/// The column types of a column layout.
pub open spec fn col_types(cols: Seq<(String, ColType)>) -> Seq<ColType> {
    cols.map_values(|c: (String, ColType)| c.1)
}

/// The cell values of decoded rows.
pub open spec fn rows_view(rows: Seq<Vec<Cell>>) -> Seq<Seq<CellValue>> {
    rows.map_values(|r: Vec<Cell>| r@.map_values(|c: Cell| c@))
}

/// The node links of the first index, after reading `ic - k` more index
/// entries of four 32-bit words each from `pos`, within a row ending at `end`.
pub open spec fn index_links(
    data: Seq<u8>,
    pos: int,
    end: int,
    k: int,
    ic: int,
    left: int,
    right: int,
) -> Result<(int, int, int), HsqlErrorKind>
    decreases ic - k,
{
    if k >= ic {
        Ok((left, right, pos))
    } else {
        match take_at(data, pos, 4) {
            Err(e) => Err(e),
            Ok(_) => match take_at(data, pos + 4, 4) {
                Err(e) => Err(e),
                Ok(l) => match take_at(data, pos + 8, 4) {
                    Err(e) => Err(e),
                    Ok(r) => match take_at(data, pos + 12, 4) {
                        Err(e) => Err(e),
                        Ok(_) => {
                            let next = pos + 16;
                            let (nl, nr) = if k == 0 { (be_signed(l), be_signed(r)) } else { (left, right) };
                            if next > end {
                                Err(HsqlErrorKind::UnexpectedEof { pos: end as usize, needed: (next - end) as usize, len: end as usize })
                            } else {
                                index_links(data, next, end, k + 1, ic, nl, nr)
                            }
                        },
                    },
                },
            },
        }
    }
}

/// The cells of a row from `pos`, each of which must end by `end`.
pub open spec fn row_cells(data: Seq<u8>, pos: int, end: int, cols: Seq<ColType>) -> Result<Seq<CellValue>, HsqlErrorKind>
    decreases cols.len(),
{
    if cols.len() == 0 {
        Ok(Seq::empty())
    } else {
        match cell_at(data, pos, cols[0]) {
            Err(e) => Err(e),
            Ok((c, next)) => if next > end {
                Err(HsqlErrorKind::UnexpectedEof { pos: pos as usize, needed: (next - pos) as usize, len: end as usize })
            } else {
                match row_cells(data, next, end, cols.skip(1)) {
                    Err(e) => Err(e),
                    Ok(rest) => Ok(seq![c] + rest),
                }
            },
        }
    }
}

/// The row block at `offset`: its left and right links in the primary index
/// and its cells.
pub open spec fn row_block_at(data: Seq<u8>, offset: i64, cols: Seq<ColType>, ic: int) -> Result<(int, int, Seq<CellValue>), HsqlErrorKind> {
    if offset < 0 || offset > usize::MAX {
        Err(HsqlErrorKind::InvalidRowOffset(offset))
    } else {
        match take_at(data, offset as int, 4) {
            Err(e) => Err(e),
            Ok(b) => {
                let size = be_signed(b);
                if size < 4 {
                    Err(HsqlErrorKind::InvalidRowSize(size as i32))
                } else if offset + size > data.len() {
                    Err(HsqlErrorKind::UnexpectedEof { pos: offset as usize, needed: size as usize, len: data.len() as usize })
                } else {
                    match index_links(data, offset + 4, offset + size, 0, ic, 0, 0) {
                        Err(e) => Err(e),
                        Ok((l, r, p)) => match row_cells(data, p, offset + size, cols) {
                            Err(e) => Err(e),
                            Ok(cells) => Ok((l, r, cells)),
                        },
                    }
                }
            },
        }
    }
}

/// The rows reachable from `offset` through the primary index, in order
/// (left subtree, the row, right subtree), and the offsets visited so far.
/// `fuel` bounds the depth; it never runs out on real traversals, whose
/// paths visit distinct offsets inside the data.
pub open spec fn walk(data: Seq<u8>, offset: i64, cols: Seq<ColType>, ic: int, seen: Seq<i64>, fuel: nat) -> Result<(Seq<Seq<CellValue>>, Seq<i64>), HsqlErrorKind>
    decreases fuel,
{
    if offset <= 0 {
        Ok((Seq::empty(), seen))
    } else if seen.contains(offset) {
        Err(HsqlErrorKind::RowCycle(offset))
    } else {
        match row_block_at(data, offset, cols, ic) {
            Err(e) => Err(e),
            Ok((l, r, cells)) => if fuel == 0 {
                Err(HsqlErrorKind::RowCycle(offset))
            } else {
                match walk(data, l as i64, cols, ic, seen.push(offset), (fuel - 1) as nat) {
                    Err(e) => Err(e),
                    Ok((lrows, s2)) => match walk(data, r as i64, cols, ic, s2, (fuel - 1) as nat) {
                        Err(e) => Err(e),
                        Ok((rrows, s3)) => Ok((lrows.push(cells) + rrows, s3)),
                    },
                }
            },
        }
    }
}

/// Every row reachable from a table's primary index root, in index order.
pub open spec fn table_rows(data: Seq<u8>, root: i64, cols: Seq<ColType>, ic: int) -> Result<Seq<Seq<CellValue>>, HsqlErrorKind> {
    match walk(data, root, cols, ic, Seq::empty(), data.len()) {
        Ok((rows, _)) => Ok(rows),
        Err(e) => Err(e),
    }
}

proof fn lemma_row_cells_len(data: Seq<u8>, pos: int, end: int, cols: Seq<ColType>)
    ensures
        row_cells(data, pos, end, cols) matches Ok(cs) ==> cs.len() == cols.len(),
    decreases cols.len(),
{
    if cols.len() > 0 {
        if let Ok((c, next)) = cell_at(data, pos, cols[0]) {
            lemma_row_cells_len(data, next, end, cols.skip(1));
        }
    }
}

proof fn lemma_walk_row_lens(data: Seq<u8>, offset: i64, cols: Seq<ColType>, ic: int, seen: Seq<i64>, fuel: nat)
    ensures
        walk(data, offset, cols, ic, seen, fuel) matches Ok((rows, _)) ==> forall|i: int|
            0 <= i < rows.len() ==> (#[trigger] rows[i]).len() == cols.len(),
    decreases fuel,
{
    if offset > 0 && !seen.contains(offset) && fuel > 0 {
        if let Ok((l, r, cells)) = row_block_at(data, offset, cols, ic) {
            if let Ok((_, p, e)) = index_links(data, offset + 4, offset + be_signed(data.subrange(offset as int, offset + 4)), 0, ic, 0, 0) {
                lemma_row_cells_len(data, e, offset + be_signed(data.subrange(offset as int, offset + 4)), cols);
            }
            lemma_walk_row_lens(data, l as i64, cols, ic, seen.push(offset), (fuel - 1) as nat);
            if let Ok((lrows, s2)) = walk(data, l as i64, cols, ic, seen.push(offset), (fuel - 1) as nat) {
                lemma_walk_row_lens(data, r as i64, cols, ic, s2, (fuel - 1) as nat);
                if let Ok((rrows, s3)) = walk(data, r as i64, cols, ic, s2, (fuel - 1) as nat) {
                    let all = lrows.push(cells) + rrows;
                    assert forall|i: int| 0 <= i < all.len() implies (#[trigger] all[i]).len() == cols.len() by {
                        if i < lrows.len() {
                            assert(all[i] == lrows[i]);
                        } else if i > lrows.len() {
                            assert(all[i] == rrows[i - lrows.len() - 1]);
                        }
                    }
                }
            }
        }
    }
}

/// A table whose root is not a row offset has no rows; every row read has
/// one cell per column; and a row whose left link points back at itself is
/// a cycle.
pub proof fn lemma_table_rows_laws(data: Seq<u8>, root: i64, cols: Seq<ColType>, ic: int)
    ensures
        root <= 0 ==> table_rows(data, root, cols, ic) == Ok::<Seq<Seq<CellValue>>, HsqlErrorKind>(Seq::empty()),
        table_rows(data, root, cols, ic) matches Ok(rows) ==> forall|i: int|
            0 <= i < rows.len() ==> (#[trigger] rows[i]).len() == cols.len(),
        root > 0 && (row_block_at(data, root, cols, ic) matches Ok((l, r, cells)) && l == root) ==> table_rows(
            data,
            root,
            cols,
            ic,
        ) == Err::<Seq<Seq<CellValue>>, HsqlErrorKind>(HsqlErrorKind::RowCycle(root)),
{
    lemma_walk_row_lens(data, root, cols, ic, Seq::empty(), data.len());
    if root > 0 {
        if let Ok((l, r, cells)) = row_block_at(data, root, cols, ic) {
            assert(data.len() > 0);
            assert(!Seq::<i64>::empty().contains(root));
            assert(Seq::<i64>::empty().push(root).contains(root)) by {
                assert(Seq::<i64>::empty().push(root)[0] == root);
            }
            if l == root {
                assert((l as i64) == root);
                assert(walk(data, l as i64, cols, ic, Seq::<i64>::empty().push(root), (data.len() - 1) as nat) == Err::<
                    (Seq<Seq<CellValue>>, Seq<i64>),
                    HsqlErrorKind,
                >(HsqlErrorKind::RowCycle(root)));
                assert(walk(data, root, cols, ic, Seq::empty(), data.len()) == Err::<
                    (Seq<Seq<CellValue>>, Seq<i64>),
                    HsqlErrorKind,
                >(HsqlErrorKind::RowCycle(root)));
            }
        }
    }
}

/// The primary key of a row: its first cell, when that is an integer.
pub open spec fn row_key(row: Seq<CellValue>) -> Option<int> {
    if row.len() > 0 && row[0] is Int {
        Some(row[0]->Int_0)
    } else {
        None
    }
}

/// Whether every row has an integer key strictly between the bounds.
pub open spec fn keys_between(rows: Seq<Seq<CellValue>>, lo: Option<int>, hi: Option<int>) -> bool {
    forall|i: int| 0 <= i < rows.len() ==> {
        &&& (#[trigger] row_key(rows[i])) is Some
        &&& lo matches Some(b) ==> b < row_key(rows[i])->Some_0
        &&& hi matches Some(b) ==> row_key(rows[i])->Some_0 < b
    }
}

/// Whether the index below `offset` is a search tree on the rows' integer
/// keys: each row's key lies above the keys of every row reachable through
/// its left link and below those of every row reachable through its right
/// link.
pub open spec fn search_tree(data: Seq<u8>, offset: i64, cols: Seq<ColType>, ic: int, seen: Seq<i64>, fuel: nat) -> bool
    decreases fuel,
{
    if offset <= 0 || seen.contains(offset) || fuel == 0 {
        true
    } else {
        match row_block_at(data, offset, cols, ic) {
            Err(_) => true,
            Ok((l, r, cells)) => {
                &&& row_key(cells) is Some
                &&& search_tree(data, l as i64, cols, ic, seen.push(offset), (fuel - 1) as nat)
                &&& match walk(data, l as i64, cols, ic, seen.push(offset), (fuel - 1) as nat) {
                    Err(_) => true,
                    Ok((lrows, s2)) => {
                        &&& keys_between(lrows, None, row_key(cells))
                        &&& search_tree(data, r as i64, cols, ic, s2, (fuel - 1) as nat)
                        &&& match walk(data, r as i64, cols, ic, s2, (fuel - 1) as nat) {
                            Err(_) => true,
                            Ok((rrows, _)) => keys_between(rrows, row_key(cells), None),
                        }
                    },
                }
            },
        }
    }
}

/// Whether rows come in strictly ascending key order.
pub open spec fn keys_ascending(rows: Seq<Seq<CellValue>>) -> bool {
    &&& forall|i: int| 0 <= i < rows.len() ==> (#[trigger] row_key(rows[i])) is Some
    &&& forall|i: int, j: int| 0 <= i < j < rows.len() ==> row_key(#[trigger] rows[i])->Some_0 < row_key(#[trigger] rows[j])->Some_0
}

/// Rows come in index order: when the primary index is a search tree on the
/// rows' keys, the rows read are sorted by key, each row after every row of
/// its left subtree and before every row of its right subtree.
pub proof fn lemma_walk_sorted_by_key(data: Seq<u8>, offset: i64, cols: Seq<ColType>, ic: int, seen: Seq<i64>, fuel: nat)
    requires
        search_tree(data, offset, cols, ic, seen, fuel),
    ensures
        walk(data, offset, cols, ic, seen, fuel) matches Ok((rows, _)) ==> keys_ascending(rows),
    decreases fuel,
{
    if offset > 0 && !seen.contains(offset) && fuel > 0 {
        if let Ok((l, r, cells)) = row_block_at(data, offset, cols, ic) {
            lemma_walk_sorted_by_key(data, l as i64, cols, ic, seen.push(offset), (fuel - 1) as nat);
            if let Ok((lrows, s2)) = walk(data, l as i64, cols, ic, seen.push(offset), (fuel - 1) as nat) {
                lemma_walk_sorted_by_key(data, r as i64, cols, ic, s2, (fuel - 1) as nat);
                if let Ok((rrows, s3)) = walk(data, r as i64, cols, ic, s2, (fuel - 1) as nat) {
                    let k = row_key(cells)->Some_0;
                    let all = lrows.push(cells) + rrows;
                    let n = lrows.len() as int;
                    assert forall|i: int| 0 <= i < all.len() implies (#[trigger] row_key(all[i])) is Some by {
                        if i < n {
                            assert(all[i] == lrows[i]);
                        } else if i > n {
                            assert(all[i] == rrows[i - n - 1]);
                        }
                    }
                    assert forall|i: int, j: int| 0 <= i < j < all.len() implies row_key(#[trigger] all[i])->Some_0 < row_key(
                        #[trigger] all[j],
                    )->Some_0 by {
                        if j < n {
                            assert(all[i] == lrows[i] && all[j] == lrows[j]);
                        } else if i > n {
                            assert(all[i] == rrows[i - n - 1] && all[j] == rrows[j - n - 1]);
                        } else {
                            if i < n {
                                assert(all[i] == lrows[i]);
                                assert(row_key(lrows[i]) is Some);
                            } else {
                                assert(all[i] == cells);
                            }
                            if j > n {
                                assert(all[j] == rrows[j - n - 1]);
                                assert(row_key(rrows[j - n - 1]) is Some);
                            } else {
                                assert(all[j] == cells);
                            }
                        }
                    }
                    assert(walk(data, offset, cols, ic, seen, fuel) == Ok::<(Seq<Seq<CellValue>>, Seq<i64>), HsqlErrorKind>((all, s3)));
                }
            }
        }
    }
}

/// A walk reads one row for every row block it visits: the offsets it has
/// seen grow by exactly the number of rows it returns, those already seen
/// staying first.
pub proof fn lemma_walk_one_row_per_visit(data: Seq<u8>, offset: i64, cols: Seq<ColType>, ic: int, seen: Seq<i64>, fuel: nat)
    ensures
        walk(data, offset, cols, ic, seen, fuel) matches Ok((rows, s)) ==> s.len() == seen.len() + rows.len()
            && s.take(seen.len() as int) == seen,
    decreases fuel,
{
    if offset > 0 && !seen.contains(offset) && fuel > 0 {
        if let Ok((l, r, cells)) = row_block_at(data, offset, cols, ic) {
            lemma_walk_one_row_per_visit(data, l as i64, cols, ic, seen.push(offset), (fuel - 1) as nat);
            if let Ok((lrows, s2)) = walk(data, l as i64, cols, ic, seen.push(offset), (fuel - 1) as nat) {
                lemma_walk_one_row_per_visit(data, r as i64, cols, ic, s2, (fuel - 1) as nat);
                if let Ok((rrows, s3)) = walk(data, r as i64, cols, ic, s2, (fuel - 1) as nat) {
                    assert(s3.take(seen.len() as int) =~= s2.take(s2.len() as int).take(seen.len() as int));
                    assert(s2.take(seen.len() as int) =~= seen.push(offset).take(seen.len() as int));
                    assert(seen.push(offset).take(seen.len() as int) =~= seen);
                    assert(s3.take(seen.len() as int) =~= s3.take(s2.len() as int).take(seen.len() as int));
                }
            }
        }
    } else if offset <= 0 || seen.contains(offset) {
        assert(seen.take(seen.len() as int) =~= seen);
    }
}

/// A table read through an index that is a search tree on the rows' keys
/// comes out sorted by key.
pub proof fn lemma_table_rows_sorted_by_key(data: Seq<u8>, root: i64, cols: Seq<ColType>, ic: int)
    requires
        search_tree(data, root, cols, ic, Seq::empty(), data.len()),
    ensures
        table_rows(data, root, cols, ic) matches Ok(rows) ==> keys_ascending(rows),
{
    lemma_walk_sorted_by_key(data, root, cols, ic, Seq::empty(), data.len());
}

/// Whether `seen` holds distinct offsets inside data of length `len`.
pub open spec fn seen_ok(seen: Seq<i64>, len: int) -> bool {
    &&& seen.no_duplicates()
    &&& forall|i: int| 0 <= i < seen.len() ==> 1 <= #[trigger] seen[i] < len
}

proof fn lemma_seen_bound(seen: Seq<i64>, len: int)
    requires
        seen_ok(seen, len),
        len >= 1,
    ensures
        seen.len() <= len - 1,
{
    let si = seen.map_values(|x: i64| x as int);
    assert(si.no_duplicates()) by {
        assert forall|i: int, j: int| 0 <= i < si.len() && 0 <= j < si.len() && i != j implies si[i]
            != si[j] by {
            assert(seen[i] != seen[j]);
        }
    }
    si.unique_seq_to_set();
    vstd::set_lib::lemma_int_range(1, len);
    assert(si.to_set().subset_of(vstd::set_lib::set_int_range(1, len))) by {
        assert forall|x: int| si.to_set().contains(x) implies vstd::set_lib::set_int_range(1, len).contains(x) by {
            let k = choose|k: int| 0 <= k < si.len() && si[k] == x;
            assert(1 <= seen[k] < len);
        }
    }
    vstd::set_lib::lemma_len_subset(si.to_set(), vstd::set_lib::set_int_range(1, len));
}

fn contains_offset(seen: &Vec<i64>, offset: i64) -> (r: bool)
    ensures
        r == seen@.contains(offset),
{
    let mut i: usize = 0;
    while i < seen.len()
        invariant
            i <= seen.len(),
            forall|j: int| 0 <= j < i ==> seen@[j] != offset,
        decreases seen.len() - i,
    {
        if seen[i] == offset {
            assert(seen@[i as int] == offset);
            return true;
        }
        i += 1;
    }
    false
}

struct RowBlock {
    left: i64,
    right: i64,
    cells: Vec<Cell>,
}

/// The primary-index links of a row whose index entries start at `from`.
fn read_links(data: &[u8], from: usize, end: usize, index_count: usize) -> (r: Result<(i64, i64, usize), HsqlError>)
    requires
        from <= end <= data.len(),
    ensures
        match index_links(data@, from as int, end as int, 0, index_count as int, 0, 0) {
            Ok((l, rt, p)) => r matches Ok((a, b, q)) && a == l && b == rt && q == p && q <= end,
            Err(k) => r matches Err(e) && e.kind == k,
        },
{
    let ghost d = data@;
    let mut pos = from;
    let mut left: i64 = 0;
    let mut right: i64 = 0;
    let mut index: usize = 0;
    while index < index_count
        invariant
            index <= index_count,
            end <= data.len(),
            pos <= end,
            index_links(d, from as int, end as int, 0, index_count as int, 0, 0) == index_links(
                d,
                pos as int,
                end as int,
                index as int,
                index_count as int,
                left as int,
                right as int,
            ),
            d == data@,
        decreases index_count - index,
    {
        let (_, next) = read_i32(data, pos)?;
        let (node_left, next) = read_i32(data, next)?;
        let (node_right, next) = read_i32(data, next)?;
        let (_, next) = read_i32(data, next)?;
        if index == 0 {
            left = node_left as i64;
            right = node_right as i64;
        }
        if next > end {
            return Err(HsqlError::unexpected_eof(end, next - end, end));
        }
        pos = next;
        index += 1;
    }
    Ok((left, right, pos))
}

/// The cells of a row from `pos` to `end`, one per column.
fn read_cells(data: &[u8], from: usize, end: usize, cols: &[(String, ColType)]) -> (r: Result<Vec<Cell>, HsqlError>)
    requires
        from <= end <= data.len(),
    ensures
        match row_cells(data@, from as int, end as int, col_types(cols@)) {
            Ok(cells) => r matches Ok(v) && v@.map_values(|c: Cell| c@) == cells,
            Err(k) => r matches Err(e) && e.kind == k,
        },
{
    let ghost d = data@;
    let ghost types = col_types(cols@);
    let mut pos = from;
    let mut cells: Vec<Cell> = Vec::new();
    let mut i: usize = 0;
    assert(types.skip(0) =~= types);
    assert(Seq::<CellValue>::empty() + row_cells(d, from as int, end as int, types)->Ok_0
        =~= row_cells(d, from as int, end as int, types)->Ok_0);
    assert(cells@.map_values(|c: Cell| c@) =~= Seq::<CellValue>::empty());
    while i < cols.len()
        invariant
            i <= cols.len(),
            end <= data.len(),
            pos <= end,
            d == data@,
            types == col_types(cols@),
            types.len() == cols.len(),
            match row_cells(d, pos as int, end as int, types.skip(i as int)) {
                Ok(rest) => row_cells(d, from as int, end as int, types) == Ok::<
                    Seq<CellValue>,
                    HsqlErrorKind,
                >(cells@.map_values(|c: Cell| c@) + rest),
                Err(e) => row_cells(d, from as int, end as int, types) == Err::<
                    Seq<CellValue>,
                    HsqlErrorKind,
                >(e),
            },
        decreases cols.len() - i,
    {
        assert(types.skip(i as int)[0] == cols@[i as int].1);
        assert(types.skip(i as int).skip(1) =~= types.skip(i + 1));
        let (cell, next) = read_cell(data, pos, cols[i].1)?;
        if next > end {
            return Err(HsqlError::unexpected_eof(pos, next - pos, end));
        }
        let ghost before = cells@.map_values(|c: Cell| c@);
        cells.push(cell);
        assert(cells@.map_values(|c: Cell| c@) =~= before.push(cell@));
        proof {
            match row_cells(d, next as int, end as int, types.skip(i + 1)) {
                Ok(rest) => {
                    assert(before + (seq![cell@] + rest) =~= before.push(cell@) + rest);
                },
                Err(_) => {},
            }
        }
        pos = next;
        i += 1;
    }
    assert(types.skip(cols.len() as int) =~= Seq::<ColType>::empty());
    assert(cells@.map_values(|c: Cell| c@) + Seq::<CellValue>::empty() =~= cells@.map_values(|c: Cell| c@));
    Ok(cells)
}

fn decode_row(data: &[u8], offset: i64, cols: &[(String, ColType)], index_count: usize) -> (r: Result<RowBlock, HsqlError>)
    requires
        offset > 0,
    ensures
        match row_block_at(data@, offset, col_types(cols@), index_count as int) {
            Ok((l, rt, cells)) => r matches Ok(b) && b.left == l && b.right == rt && b.cells@.map_values(|c: Cell| c@) == cells,
            Err(k) => r matches Err(e) && e.kind == k,
        },
{
    if offset as i128 > usize::MAX as i128 {
        return Err(HsqlError::invalid_row_offset(offset));
    }
    let offset = offset as usize;
    let (size, pos) = read_i32(data, offset)?;
    if size < 4 {
        return Err(HsqlError::invalid_row_size(size));
    }
    let size = size as usize;
    if offset > data.len() || size > data.len() - offset {
        return Err(HsqlError::unexpected_eof(offset, size, data.len()));
    }
    let end = offset + size;
    let (left, right, pos) = read_links(data, pos, end, index_count)?;
    let cells = read_cells(data, pos, end, cols)?;
    Ok(RowBlock { left, right, cells })
}

fn walk_row(
    data: &[u8],
    offset: i64,
    cols: &[(String, ColType)],
    index_count: usize,
    seen: &mut Vec<i64>,
    rows: &mut Vec<Vec<Cell>>,
    fuel: usize,
) -> (r: Result<(), HsqlError>)
    requires
        seen_ok(old(seen)@, data@.len() as int),
        fuel + old(seen)@.len() >= data@.len(),
    ensures
        match walk(data@, offset, col_types(cols@), index_count as int, old(seen)@, fuel as nat) {
            Ok((rs, s)) => r is Ok && rows_view(final(rows)@) == rows_view(old(rows)@) + rs
                && final(seen)@ == s,
            Err(k) => r matches Err(e) && e.kind == k,
        },
        r is Ok ==> seen_ok(final(seen)@, data@.len() as int) && final(seen)@.len() >= old(seen)@.len(),
    decreases fuel,
{
    if offset <= 0 {
        return Ok(());
    }
    if contains_offset(seen, offset) {
        return Err(HsqlError::row_cycle(offset));
    }
    let row = decode_row(data, offset, cols, index_count)?;
    proof {
        let ghost s1 = old(seen)@.push(offset);
        assert(seen_ok(s1, data@.len() as int)) by {
            assert(1 <= offset < data@.len());
            assert forall|i: int, j: int| 0 <= i < s1.len() && 0 <= j < s1.len() && i != j implies s1[i] != s1[j] by {
                if i == s1.len() - 1 || j == s1.len() - 1 {
                    if i < s1.len() - 1 {
                        assert(old(seen)@[i] == s1[i]);
                    }
                    if j < s1.len() - 1 {
                        assert(old(seen)@[j] == s1[j]);
                    }
                } else {
                    assert(old(seen)@[i] == s1[i]);
                    assert(old(seen)@[j] == s1[j]);
                }
            }
        }
        lemma_seen_bound(s1, data@.len() as int);
    }
    seen.push(offset);
    let ghost before_rows = rows_view(rows@);
    walk_row(data, row.left, cols, index_count, seen, rows, fuel - 1)?;
    let ghost mid_rows = rows_view(rows@);
    let cells = row.cells;
    let ghost cv = cells@.map_values(|c: Cell| c@);
    rows.push(cells);
    assert(rows_view(rows@) =~= mid_rows.push(cv));
    walk_row(data, row.right, cols, index_count, seen, rows, fuel - 1)?;
    proof {
        let w = walk(data@, row.left, col_types(cols@), index_count as int, old(seen)@.push(offset), (fuel - 1) as nat);
        assert(w is Ok);
    }
    Ok(())
}

/// Read every row reachable from a table's primary index root, in index order.
pub fn read_table(data: &[u8], table_root: i64, cols: &[(String, ColType)], index_count: usize) -> (r: Result<Vec<Vec<Cell>>, HsqlError>)
    ensures
        match table_rows(data@, table_root, col_types(cols@), index_count as int) {
            Ok(rows) => r matches Ok(v) && rows_view(v@) == rows,
            Err(k) => r matches Err(e) && e.kind == k,
        },
{
    let mut rows: Vec<Vec<Cell>> = Vec::new();
    let mut seen: Vec<i64> = Vec::new();
    walk_row(data, table_root, cols, index_count, &mut seen, &mut rows, data.len())?;
    assert(rows_view(Seq::<Vec<Cell>>::empty()) =~= Seq::<Seq<CellValue>>::empty());
    Ok(rows)
}

} // verus!
