//! Command-line argument parsing for the `ledger` command.
use vstd::prelude::*;

use crate::calendar::{unix_seconds_of_calendar_date, valid_calendar_date};
use crate::model::{amount_text_result, voucher_count, voucher_sum, Amount, Posting};
use crate::text::{
    debug_quoted, debug_text,
    chars_of, first_index, has_char, lemma_first_index, parse_int_chars, parse_int_in, push_chars,
    split_on, str_is, string_from_chars, trim, trimmed_range,
};

verus! {

broadcast use vstd::string::group_string_axioms;

// ---------------------------------------------------------------------------
// Commands

/// Where an import reads from.
#[derive(Clone, Debug, PartialEq, Eq)]
pub enum ImportSource {
    /// A LibreOffice Base `.odb` file.
    Odb(String),
    /// A directory of CSV exports.
    Csv(String),
}

/// Which years a report covers.
#[derive(Clone, Copy, Debug, PartialEq, Eq, Structural)]
pub enum YearSelection {
    /// Every year of the set.
    All,
    /// One year.
    One(i32),
}

/// How a report groups balances.
#[derive(Clone, Copy, Debug, PartialEq, Eq, Structural)]
pub enum ReportGroup {
    /// By year-local account.
    Account,
    /// By SRU code.
    Sru,
}

/// One posting line of a draft voucher.
#[derive(Clone, Copy, Debug, PartialEq, Eq, Structural)]
pub struct DraftPosting {
    /// Account number.
    pub account: i64,
    /// Signed amount.
    pub amount: Amount,
}

/// A valid calendar date.
#[derive(Clone, Copy, Debug, PartialEq, Eq, Structural)]
pub struct CalendarDate {
    /// Year.
    pub year: i32,
    /// Month, 1 through 12.
    pub month: u8,
    /// Day of the month.
    pub day: u8,
}

/// A parsed `ledger` command.
#[derive(Clone, Debug, PartialEq, Eq)]
pub enum Command {
    /// `ledger new <set-dir> --label <text>`
    New { set_dir: String, label: String },
    /// `ledger import <set-dir> --odb <file.odb> | --csv <dir> --year <YYYY>`
    Import { set_dir: String, source: ImportSource, year: i32 },
    /// `ledger years <set-dir>`
    Years { set_dir: String },
    /// `ledger report <set-dir> [--year YYYY | --all] [--by account|sru]`
    Report { set_dir: String, years: YearSelection, group: ReportGroup },
    /// `ledger close <set-dir> --year <YYYY>`
    Close { set_dir: String, year: i32 },
    /// `ledger statements <set-dir> --year <YYYY>`
    Statements { set_dir: String, year: i32 },
    /// `ledger sru-compare <set-dir> --years <YYYY>[,<YYYY>...]`
    SruCompare { set_dir: String, years: Vec<i32> },
    /// `ledger draft-check --date <YYYY-MM-DD> --text <text> --posting <account>:<amount>...`
    DraftCheck { date: CalendarDate, text: String, postings: Vec<DraftPosting> },
}

/// A usage error, with its message.
#[derive(Clone, Debug, PartialEq, Eq)]
pub struct ParseError(pub String);

impl ParseError {
    /// The message.
    pub fn message(&self) -> (r: String)
        ensures
            r@ == self.0@,
    {
        self.0.clone()
    }
}

/// What an import source states.
pub enum SourceView {
    /// An `.odb` file.
    Odb(Seq<char>),
    /// A CSV directory.
    Csv(Seq<char>),
}

/// What a command states.
pub enum CommandView {
    New { set_dir: Seq<char>, label: Seq<char> },
    Import { set_dir: Seq<char>, source: SourceView, year: i32 },
    Years { set_dir: Seq<char> },
    Report { set_dir: Seq<char>, years: YearSelection, group: ReportGroup },
    Close { set_dir: Seq<char>, year: i32 },
    Statements { set_dir: Seq<char>, year: i32 },
    SruCompare { set_dir: Seq<char>, years: Seq<i32> },
    DraftCheck { date: CalendarDate, text: Seq<char>, postings: Seq<DraftPosting> },
}

impl View for ImportSource {
    type V = SourceView;

    open spec fn view(&self) -> SourceView {
        match self {
            ImportSource::Odb(p) => SourceView::Odb(p@),
            ImportSource::Csv(p) => SourceView::Csv(p@),
        }
    }
}

impl View for Command {
    type V = CommandView;

    open spec fn view(&self) -> CommandView {
        match self {
            Command::New { set_dir, label } => CommandView::New { set_dir: set_dir@, label: label@ },
            Command::Import { set_dir, source, year } => CommandView::Import { set_dir: set_dir@, source: source@, year: *year },
            Command::Years { set_dir } => CommandView::Years { set_dir: set_dir@ },
            Command::Report { set_dir, years, group } => CommandView::Report { set_dir: set_dir@, years: *years, group: *group },
            Command::Close { set_dir, year } => CommandView::Close { set_dir: set_dir@, year: *year },
            Command::Statements { set_dir, year } => CommandView::Statements { set_dir: set_dir@, year: *year },
            Command::SruCompare { set_dir, years } => CommandView::SruCompare { set_dir: set_dir@, years: years@ },
            Command::DraftCheck { date, text, postings } => CommandView::DraftCheck { date: *date, text: text@, postings: postings@ },
        }
    }
}

/// The arguments as text.
pub open spec fn args_view(args: Seq<String>) -> Seq<Seq<char>> {
    args.map_values(|a: String| a@)
}

// ---------------------------------------------------------------------------
// Text helpers

/// Whether `s` begins with `--`.
pub open spec fn is_flag(s: Seq<char>) -> bool {
    s.len() >= 2 && s[0] == '-' && s[1] == '-'
}

fn starts_with_dashes(s: &str) -> (r: bool)
    ensures
        r == is_flag(s@),
{
    let cs = chars_of(s);
    cs.len() >= 2 && cs[0] == '-' && cs[1] == '-'
}

/// A usage error whose message is `prefix` followed by `rest`.
fn error_with(prefix: &str, rest: &str) -> (e: ParseError)
    ensures
        e.0@ == prefix@ + rest@,
{
    let mut m = chars_of(prefix);
    let r = chars_of(rest);
    push_chars(&mut m, &r);
    ParseError(string_from_chars(m.as_slice()))
}

/// A usage error with a fixed message.
fn error(message: &str) -> (e: ParseError)
    ensures
        e.0@ == message@,
{
    ParseError(message.to_owned())
}

/// A usage error naming a value in its `Debug` spelling.
fn error_about(prefix: &str, value: &str) -> (e: ParseError)
    ensures
        e.0@ == prefix@ + debug_text(value@),
{
    let q = debug_quoted(value);
    error_with(prefix, q.as_str())
}

// ---------------------------------------------------------------------------
// Values

/// The first argument, which must not be an option, and the rest.
pub open spec fn positional_of(args: Seq<Seq<char>>, name: &'static str) -> Result<Seq<char>, Seq<char>> {
    if args.len() == 0 || is_flag(args[0]) {
        Err("missing "@ + name@)
    } else {
        Ok(args[0])
    }
}

/// The value of an option at `index`, which must be there and not be an
/// option itself.
pub open spec fn value_of(args: Seq<Seq<char>>, index: int, option: &'static str) -> Result<Seq<char>, Seq<char>> {
    if 0 <= index < args.len() && !is_flag(args[index]) {
        Ok(args[index])
    } else {
        Err("missing value for "@ + option@)
    }
}

/// A year.
pub open spec fn year_of(v: Seq<char>) -> Result<i32, Seq<char>> {
    match parse_int_in(v, i32::MIN as int, i32::MAX as int) {
        Some(y) => Ok(y as i32),
        None => Err("invalid year "@ + debug_text(v)),
    }
}

/// A report grouping.
pub open spec fn group_of(v: Seq<char>) -> Result<ReportGroup, Seq<char>> {
    if v == "account"@ {
        Ok(ReportGroup::Account)
    } else if v == "sru"@ {
        Ok(ReportGroup::Sru)
    } else {
        Err("invalid report group "@ + debug_text(v))
    }
}

/// The years of a comma-separated list, each trimmed.
pub open spec fn year_list_of(pieces: Seq<Seq<char>>) -> Result<Seq<i32>, Seq<char>>
    decreases pieces.len(),
{
    if pieces.len() == 0 {
        Ok(Seq::empty())
    } else {
        match year_list_of(pieces.drop_last()) {
            Err(m) => Err(m),
            Ok(done) => {
                let y = trim(pieces.last());
                if y.len() == 0 {
                    Err("empty year in --years"@)
                } else {
                    match year_of(y) {
                        Err(m) => Err(m),
                        Ok(v) => Ok(done.push(v)),
                    }
                }
            },
        }
    }
}

/// A draft posting `<account>:<amount>`.
pub open spec fn draft_posting_of(v: Seq<char>) -> Result<DraftPosting, Seq<char>> {
    if !has_char(v, ':') {
        Err("invalid posting "@ + debug_text(v))
    } else {
        let k = first_index(v, ':');
        let account = v.take(k);
        let amount = v.skip(k + 1);
        match parse_int_in(account, i64::MIN as int, i64::MAX as int) {
            None => Err("invalid posting account "@ + debug_text(account)),
            Some(a) => match amount_text_result(amount) {
                Err(m) => Err("invalid posting amount "@ + debug_text(amount) + ": "@ + m),
                Ok(minor) => Ok(DraftPosting { account: a as i64, amount: Amount(minor as i64) }),
            },
        }
    }
}

/// A date `<year>-<month>-<day>`: three numbers, naming a real date.
pub open spec fn date_of(v: Seq<char>) -> Result<CalendarDate, Seq<char>> {
    let parts = split_on(v, '-');
    let bad = "invalid date "@ + debug_text(v);
    if parts.len() < 3 || parts.len() > 3 {
        Err(bad)
    } else {
        match (parse_int_in(parts[0], i32::MIN as int, i32::MAX as int), parse_int_in(parts[1], 0, 255), parse_int_in(parts[2], 0, 255)) {
            (Some(y), Some(m), Some(d)) => if valid_calendar_date(y, m, d) {
                Ok(CalendarDate { year: y as i32, month: m as u8, day: d as u8 })
            } else {
                Err(bad)
            },
            _ => Err(bad),
        }
    }
}

fn positional<'a>(args: &'a [String], name: &'static str) -> (r: Result<&'a String, ParseError>)
    ensures
        match positional_of(args_view(args@), name) {
            Ok(v) => r matches Ok(x) && x@ == v,
            Err(m) => r matches Err(e) && e.0@ == m,
        },
{
    proof {
        reveal_strlit("missing ");
    }
    if args.len() == 0 || starts_with_dashes(args[0].as_str()) {
        return Err(error_with("missing ", name));
    }
    Ok(&args[0])
}

fn value<'a>(args: &'a [String], index: usize, option: &'static str) -> (r: Result<&'a String, ParseError>)
    ensures
        match value_of(args_view(args@), index as int, option) {
            Ok(v) => r matches Ok(x) && x@ == v,
            Err(m) => r matches Err(e) && e.0@ == m,
        },
{
    if index < args.len() && !starts_with_dashes(args[index].as_str()) {
        Ok(&args[index])
    } else {
        Err(error_with("missing value for ", option))
    }
}

fn parse_year(value: &str) -> (r: Result<i32, ParseError>)
    ensures
        match year_of(value@) {
            Ok(y) => r == Ok::<i32, ParseError>(y),
            Err(m) => r matches Err(e) && e.0@ == m,
        },
{
    let cs = chars_of(value);
    match parse_int_chars(cs.as_slice(), i32::MIN as i64, i32::MAX as i64) {
        Some(y) => Ok(y as i32),
        None => Err(error_about("invalid year ", value)),
    }
}

fn parse_group(value: &str) -> (r: Result<ReportGroup, ParseError>)
    ensures
        match group_of(value@) {
            Ok(g) => r == Ok::<ReportGroup, ParseError>(g),
            Err(m) => r matches Err(e) && e.0@ == m,
        },
{
    if str_is(value, "account") {
        Ok(ReportGroup::Account)
    } else if str_is(value, "sru") {
        Ok(ReportGroup::Sru)
    } else {
        Err(error_about("invalid report group ", value))
    }
}

proof fn lemma_year_list_prefix_err(pieces: Seq<Seq<char>>, k: int, n: int)
    requires
        0 <= k <= n <= pieces.len(),
        year_list_of(pieces.take(k)) is Err,
    ensures
        year_list_of(pieces.take(n)) == year_list_of(pieces.take(k)),
    decreases n - k,
{
    if n > k {
        lemma_year_list_prefix_err(pieces, k, n - 1);
        assert(pieces.take(n).drop_last() =~= pieces.take(n - 1));
    }
}

/// The pieces of `s` split at `c`, as positions: each piece runs from a
/// start to the next `c` or the end.
fn find_from(s: &[char], from: usize, c: char) -> (r: usize)
    requires
        from <= s.len(),
    ensures
        from <= r <= s.len(),
        forall|k: int| from <= k < r ==> s@[k] != c,
        r < s.len() ==> s@[r as int] == c,
{
    let mut i = from;
    while i < s.len() && s[i] != c
        invariant
            from <= i <= s.len(),
            forall|k: int| from <= k < i ==> s@[k] != c,
        decreases s.len() - i,
    {
        i += 1;
    }
    i
}

proof fn lemma_split_step(s: Seq<char>, c: char, p: int, q: int)
    requires
        0 <= p <= q <= s.len(),
        forall|k: int| p <= k < q ==> s[k] != c,
        q < s.len() ==> s[q] == c,
    ensures
        q < s.len() ==> split_on(s.skip(p), c) == seq![s.subrange(p, q)] + split_on(s.skip(q + 1), c),
        q == s.len() ==> split_on(s.skip(p), c) == seq![s.subrange(p, q)],
{
    let t = s.skip(p);
    if q < s.len() {
        assert(t[q - p] == c);
        assert(has_char(t, c));
        lemma_first_index(t, c);
        let k = first_index(t, c);
        assert(k == q - p) by {
            if k < q - p {
                assert(t[k] == s[p + k]);
            }
            if k > q - p {
                assert(t[q - p] != c);
            }
        }
        assert(t.take(k) =~= s.subrange(p, q));
        assert(t.skip(k + 1) =~= s.skip(q + 1));
    } else {
        assert(!has_char(t, c)) by {
            if has_char(t, c) {
                let w = choose|i: int| 0 <= i < t.len() && t[i] == c;
                assert(t[w] == s[p + w]);
            }
        }
        assert(t =~= s.subrange(p, q));
    }
}

fn parse_year_list(value: &str) -> (r: Result<Vec<i32>, ParseError>)
    ensures
        match year_list_of(split_on(value@, ',')) {
            Ok(ys) => if ys.len() == 0 {
                r matches Err(e) && e.0@ == "missing --years"@
            } else {
                r matches Ok(v) && v@ == ys
            },
            Err(m) => r matches Err(e) && e.0@ == m,
        },
{
    let s = chars_of(value);
    let ghost pieces = split_on(s@, ',');
    let mut years: Vec<i32> = Vec::new();
    let mut p: usize = 0;
    let ghost mut done: Seq<Seq<char>> = Seq::empty();
    assert(s@.skip(0) =~= s@);
    loop
        invariant
            p <= s.len(),
            s@ == value@,
            pieces == split_on(s@, ','),
            pieces == done + split_on(s@.skip(p as int), ','),
            year_list_of(done) == Ok::<Seq<i32>, Seq<char>>(years@),
        decreases s.len() - p,
    {
        let q = find_from(s.as_slice(), p, ',');
        proof {
            lemma_split_step(s@, ',', p as int, q as int);
        }
        let ghost piece = s@.subrange(p as int, q as int);
        let ghost next_done = done.push(piece);
        assert(next_done.drop_last() =~= done);
        let (a, b) = trimmed_range(s.as_slice(), p, q);
        if a == b {
            proof {
                let ls = if q < s.len() { next_done + split_on(s@.skip(q + 1), ',') } else { next_done };
                assert(pieces =~= ls);
                assert(ls.take(next_done.len() as int) =~= next_done);
                lemma_year_list_prefix_err(ls, next_done.len() as int, ls.len() as int);
                assert(ls.take(ls.len() as int) =~= ls);
            }
            return Err(error("empty year in --years"));
        }
        let text = string_from_chars(crate::model::slice_of(s.as_slice(), a, b).as_slice());
        let year = match parse_year(text.as_str()) {
            Ok(y) => y,
            Err(e) => {
                proof {
                    let ls = if q < s.len() { next_done + split_on(s@.skip(q + 1), ',') } else { next_done };
                    assert(pieces =~= ls);
                    assert(ls.take(next_done.len() as int) =~= next_done);
                    lemma_year_list_prefix_err(ls, next_done.len() as int, ls.len() as int);
                    assert(ls.take(ls.len() as int) =~= ls);
                }
                return Err(e);
            },
        };
        years.push(year);
        proof {
            done = next_done;
        }
        if q == s.len() {
            assert(pieces =~= done);
            return Ok(years);
        }
        p = q + 1;
    }
}

fn parse_draft_posting(value: &str) -> (r: Result<DraftPosting, ParseError>)
    ensures
        match draft_posting_of(value@) {
            Ok(d) => r == Ok::<DraftPosting, ParseError>(d),
            Err(m) => r matches Err(e) && e.0@ == m,
        },
{
    let s = chars_of(value);
    let k = find_from(s.as_slice(), 0, ':');
    if k == s.len() {
        assert(!has_char(s@, ':')) by {
            if has_char(s@, ':') {
                let w = choose|i: int| 0 <= i < s@.len() && s@[i] == ':';
            }
        }
        return Err(error_about("invalid posting ", value));
    }
    proof {
        lemma_split_step(s@, ':', 0, k as int);
        assert(s@.skip(0) =~= s@);
        lemma_first_index(s@, ':');
        assert(has_char(s@, ':'));
        assert(first_index(s@, ':') == k) by {
            let f = first_index(s@, ':');
            if f < k {
                assert(s@[f] != ':');
            }
            if f > k {
                assert(s@[k as int] != ':');
            }
        }
    }
    let account_text = string_from_chars(crate::model::slice_of(s.as_slice(), 0, k).as_slice());
    let amount_text = string_from_chars(crate::model::slice_of(s.as_slice(), k + 1, s.len()).as_slice());
    assert(account_text@ =~= s@.take(k as int));
    assert(amount_text@ =~= s@.skip(k + 1));
    let ac = chars_of(account_text.as_str());
    let account = match parse_int_chars(ac.as_slice(), i64::MIN, i64::MAX) {
        Some(a) => a,
        None => {
            return Err(error_about("invalid posting account ", account_text.as_str()));
        },
    };
    let amount = match Amount::parse(amount_text.as_str()) {
        Ok(a) => a,
        Err(message) => {
            let e = error_about("invalid posting amount ", amount_text.as_str());
            let e2 = error_with(e.0.as_str(), ": ");
            return Err(error_with(e2.0.as_str(), message.as_str()));
        },
    };
    Ok(DraftPosting { account, amount })
}

fn parse_date(value: &str) -> (r: Result<CalendarDate, ParseError>)
    ensures
        match date_of(value@) {
            Ok(d) => r == Ok::<CalendarDate, ParseError>(d),
            Err(m) => r matches Err(e) && e.0@ == m,
        },
{
    let s = chars_of(value);
    let q1 = find_from(s.as_slice(), 0, '-');
    proof {
        assert(s@.skip(0) =~= s@);
        lemma_split_step(s@, '-', 0, q1 as int);
    }
    if q1 == s.len() {
        return Err(error_about("invalid date ", value));
    }
    let q2 = find_from(s.as_slice(), q1 + 1, '-');
    proof {
        lemma_split_step(s@, '-', q1 + 1, q2 as int);
    }
    if q2 == s.len() {
        return Err(error_about("invalid date ", value));
    }
    let q3 = find_from(s.as_slice(), q2 + 1, '-');
    proof {
        lemma_split_step(s@, '-', q2 + 1, q3 as int);
        if q3 < s.len() {
            crate::text::lemma_split_on_len(s@.skip(q3 + 1), '-');
        }
    }
    if q3 < s.len() {
        return Err(error_about("invalid date ", value));
    }
    let ghost parts = split_on(s@, '-');
    assert(parts =~= seq![s@.subrange(0, q1 as int), s@.subrange(q1 + 1, q2 as int), s@.subrange(q2 + 1, q3 as int)]);
    let year = parse_int_chars(crate::model::slice_of(s.as_slice(), 0, q1).as_slice(), i32::MIN as i64, i32::MAX as i64);
    let month = parse_int_chars(crate::model::slice_of(s.as_slice(), q1 + 1, q2).as_slice(), 0, 255);
    let day = parse_int_chars(crate::model::slice_of(s.as_slice(), q2 + 1, q3).as_slice(), 0, 255);
    match (year, month, day) {
        (Some(y), Some(m), Some(d)) => {
            match unix_seconds_of_calendar_date(y as i32, m as u8, d as u8) {
                Some(_) => Ok(CalendarDate { year: y as i32, month: m as u8, day: d as u8 }),
                None => Err(error_about("invalid date ", value)),
            }
        },
        _ => Err(error_about("invalid date ", value)),
    }
}

// ---------------------------------------------------------------------------
// Draft postings

/// A row count that does not fit the id type.
#[derive(Clone, Copy, Debug, PartialEq, Eq)]
pub struct CountOverflow {
    /// The kind of row counted.
    pub row_kind: &'static str,
    /// The count.
    pub count: usize,
}

/// The posting a draft line becomes: numbered from one in line order, all in
/// voucher one, with no source id and no text.
pub open spec fn draft_posting_row(p: DraftPosting, index: int) -> Posting {
    Posting { id: (index + 1) as i64, source_id: None, voucher_id: 1, account: p.account, amount: p.amount, text: None }
}

/// The sum of the draft lines' amounts.
pub open spec fn draft_total(postings: Seq<DraftPosting>) -> int
    decreases postings.len(),
{
    if postings.len() == 0 {
        0
    } else {
        draft_total(postings.drop_last()) + postings.last().amount.0
    }
}

/// The rows of the draft lines, in line order.
pub open spec fn draft_rows(postings: Seq<DraftPosting>) -> Seq<Posting> {
    Seq::new(postings.len(), |i: int| draft_posting_row(postings[i], i))
}

/// The draft lines make one voucher: every row is in voucher one, that
/// voucher holds every line and sums to the lines' total, so a draft whose
/// amounts cancel balances; rows keep each line's account and amount and are
/// numbered one after another from one.
pub proof fn lemma_draft_is_one_voucher(postings: Seq<DraftPosting>)
    ensures
        forall|i: int| 0 <= i < postings.len() ==> {
            &&& (#[trigger] draft_rows(postings)[i]).voucher_id == 1
            &&& draft_rows(postings)[i].id == (i + 1) as i64
            &&& draft_rows(postings)[i].account == postings[i].account
            &&& draft_rows(postings)[i].amount == postings[i].amount
        },
        voucher_count(draft_rows(postings), 1) == postings.len(),
        voucher_sum(draft_rows(postings), 1) == draft_total(postings),
    decreases postings.len(),
{
    if postings.len() > 0 {
        let rest = postings.drop_last();
        lemma_draft_is_one_voucher(rest);
        assert(draft_rows(postings).drop_last() =~= draft_rows(rest));
        assert(draft_rows(postings).last() == draft_posting_row(postings.last(), postings.len() - 1));
    } else {
        assert(draft_rows(postings) =~= Seq::<Posting>::empty());
    }
}

/// The draft lines as the postings of one voucher.
pub fn draft_postings(postings: &[DraftPosting]) -> (r: Result<Vec<Posting>, CountOverflow>)
    ensures
        postings@.len() <= i64::MAX ==> (r matches Ok(v) && v@.len() == postings@.len() && forall|i: int|
            0 <= i < postings@.len() ==> #[trigger] v@[i] == draft_posting_row(postings@[i], i)),
        r matches Ok(v) ==> forall|i: int| 0 <= i < v@.len() ==> (#[trigger] v@[i]).voucher_id == 1 && v@[i].amount
            == postings@[i].amount && v@[i].account == postings@[i].account,
        postings@.len() > i64::MAX ==> r == Err::<Vec<Posting>, CountOverflow>(
            CountOverflow { row_kind: "posting", count: (i64::MAX + 1) as usize },
        ),
{
    let mut out: Vec<Posting> = Vec::new();
    let mut i: usize = 0;
    while i < postings.len()
        invariant
            i <= postings.len(),
            i <= i64::MAX,
            out@.len() == i,
            forall|k: int| 0 <= k < i ==> #[trigger] out@[k] == draft_posting_row(postings@[k], k),
        decreases postings.len() - i,
    {
        let count = i + 1;
        if count as u64 > i64::MAX as u64 {
            return Err(CountOverflow { row_kind: "posting", count });
        }
        let p = postings[i];
        out.push(Posting { id: count as i64, source_id: None, voucher_id: 1, account: p.account, amount: p.amount, text: None });
        i += 1;
    }
    Ok(out)
}

// ---------------------------------------------------------------------------
// Option loops

/// The label of `new`'s options from `i`, given the label so far.
pub open spec fn new_options(rest: Seq<Seq<char>>, i: int, label: Option<Seq<char>>) -> Result<Option<Seq<char>>, Seq<char>>
    decreases rest.len() - i,
{
    if i >= rest.len() || i < 0 {
        Ok(label)
    } else if rest[i] == "--label"@ {
        match value_of(rest, i + 1, "--label") {
            Err(m) => Err(m),
            Ok(v) => new_options(rest, i + 2, Some(v)),
        }
    } else {
        Err("unknown option "@ + debug_text(rest[i]))
    }
}

/// What `ledger new` parses to.
pub open spec fn new_command(args: Seq<Seq<char>>) -> Result<CommandView, Seq<char>> {
    match positional_of(args, "set-dir") {
        Err(m) => Err(m),
        Ok(set_dir) => match new_options(args.skip(1), 0, None) {
            Err(m) => Err(m),
            Ok(None) => Err("missing --label"@),
            Ok(Some(label)) => Ok(CommandView::New { set_dir, label }),
        },
    }
}

fn parse_new(args: &[String]) -> (r: Result<Command, ParseError>)
    ensures
        match new_command(args_view(args@)) {
            Ok(c) => r matches Ok(x) && x@ == c,
            Err(m) => r matches Err(e) && e.0@ == m,
        },
{
    let set_dir = positional(args, "set-dir")?;
    let rest = &args[1..args.len()];
    let ghost av = args_view(args@);
    let ghost rv = av.skip(1);
    assert(rv =~= args_view(rest@));
    let mut label: Option<String> = None;
    let mut index: usize = 0;
    while index < rest.len()
        invariant
            av == args_view(args@),
            rv == av.skip(1),
            rv == args_view(rest@),
            positional_of(av, "set-dir") == Ok::<Seq<char>, Seq<char>>(set_dir@),
            new_options(rv, 0, None) == new_options(rv, index as int, match label { Some(l) => Some(l@), None => None }),
        decreases rest.len() - index,
    {
        if str_is(rest[index].as_str(), "--label") {
            let v = value(rest, index + 1, "--label")?;
            label = Some(v.clone());
            index += 2;
        } else {
            return Err(error_about("unknown option ", rest[index].as_str()));
        }
    }
    match label {
        Some(l) => Ok(Command::New { set_dir: set_dir.clone(), label: l }),
        None => Err(error("missing --label")),
    }
}

/// The state of `import`'s options: the source and the year so far.
pub open spec fn import_options(rest: Seq<Seq<char>>, i: int, source: Option<SourceView>, year: Option<i32>) -> Result<(Option<SourceView>, Option<i32>), Seq<char>>
    decreases rest.len() - i,
{
    if i >= rest.len() || i < 0 {
        Ok((source, year))
    } else if rest[i] == "--odb"@ || rest[i] == "--csv"@ {
        let option = if rest[i] == "--odb"@ { "--odb" } else { "--csv" };
        match value_of(rest, i + 1, option) {
            Err(m) => Err(m),
            Ok(v) => if source is Some {
                Err("choose exactly one of --odb or --csv"@)
            } else {
                import_options(rest, i + 2, Some(if rest[i] == "--odb"@ { SourceView::Odb(v) } else { SourceView::Csv(v) }), year)
            },
        }
    } else if rest[i] == "--year"@ {
        match value_of(rest, i + 1, "--year") {
            Err(m) => Err(m),
            Ok(v) => match year_of(v) {
                Err(m) => Err(m),
                Ok(y) => import_options(rest, i + 2, source, Some(y)),
            },
        }
    } else {
        Err("unknown option "@ + debug_text(rest[i]))
    }
}

/// What `ledger import` parses to.
pub open spec fn import_command(args: Seq<Seq<char>>) -> Result<CommandView, Seq<char>> {
    match positional_of(args, "set-dir") {
        Err(m) => Err(m),
        Ok(set_dir) => match import_options(args.skip(1), 0, None, None) {
            Err(m) => Err(m),
            Ok((None, _)) => Err("missing --odb or --csv"@),
            Ok((Some(_), None)) => Err("missing --year"@),
            Ok((Some(source), Some(year))) => Ok(CommandView::Import { set_dir, source, year }),
        },
    }
}

fn parse_import(args: &[String]) -> (r: Result<Command, ParseError>)
    ensures
        match import_command(args_view(args@)) {
            Ok(c) => r matches Ok(x) && x@ == c,
            Err(m) => r matches Err(e) && e.0@ == m,
        },
{
    let set_dir = positional(args, "set-dir")?;
    let rest = &args[1..args.len()];
    let ghost av = args_view(args@);
    let ghost rv = av.skip(1);
    assert(rv =~= args_view(rest@));
    let mut source: Option<ImportSource> = None;
    let mut year: Option<i32> = None;
    let mut index: usize = 0;
    while index < rest.len()
        invariant
            av == args_view(args@),
            rv == av.skip(1),
            rv == args_view(rest@),
            positional_of(av, "set-dir") == Ok::<Seq<char>, Seq<char>>(set_dir@),
            import_options(rv, 0, None, None) == import_options(
                rv,
                index as int,
                match source { Some(x) => Some(x@), None => None::<SourceView> },
                year,
            ),
        decreases rest.len() - index,
    {
        let arg = rest[index].as_str();
        if str_is(arg, "--odb") || str_is(arg, "--csv") {
            let is_odb = str_is(arg, "--odb");
            let option = if is_odb { "--odb" } else { "--csv" };
            let v = value(rest, index + 1, option)?;
            if source.is_some() {
                return Err(error("choose exactly one of --odb or --csv"));
            }
            source = Some(if is_odb { ImportSource::Odb(v.clone()) } else { ImportSource::Csv(v.clone()) });
            index += 2;
        } else if str_is(arg, "--year") {
            let v = value(rest, index + 1, "--year")?;
            year = Some(parse_year(v.as_str())?);
            index += 2;
        } else {
            return Err(error_about("unknown option ", arg));
        }
    }
    let source = match source {
        Some(s) => s,
        None => {
            return Err(error("missing --odb or --csv"));
        },
    };
    let year = match year {
        Some(y) => y,
        None => {
            return Err(error("missing --year"));
        },
    };
    Ok(Command::Import { set_dir: set_dir.clone(), source, year })
}

/// What `ledger years` parses to.
pub open spec fn years_command(args: Seq<Seq<char>>) -> Result<CommandView, Seq<char>> {
    match positional_of(args, "set-dir") {
        Err(m) => Err(m),
        Ok(set_dir) => if args.len() > 1 {
            Err("unexpected argument "@ + debug_text(args[1]))
        } else {
            Ok(CommandView::Years { set_dir })
        },
    }
}

fn parse_years(args: &[String]) -> (r: Result<Command, ParseError>)
    ensures
        match years_command(args_view(args@)) {
            Ok(c) => r matches Ok(x) && x@ == c,
            Err(m) => r matches Err(e) && e.0@ == m,
        },
{
    let set_dir = positional(args, "set-dir")?;
    if args.len() > 1 {
        return Err(error_about("unexpected argument ", args[1].as_str()));
    }
    Ok(Command::Years { set_dir: set_dir.clone() })
}

/// The state of `report`'s options: the years, whether a year selector was
/// given, and the grouping.
pub open spec fn report_options(rest: Seq<Seq<char>>, i: int, years: YearSelection, has: bool, group: ReportGroup) -> Result<(YearSelection, ReportGroup), Seq<char>>
    decreases rest.len() - i,
{
    if i >= rest.len() || i < 0 {
        Ok((years, group))
    } else if rest[i] == "--year"@ {
        if has {
            Err("choose exactly one of --year or --all"@)
        } else {
            match value_of(rest, i + 1, "--year") {
                Err(m) => Err(m),
                Ok(v) => match year_of(v) {
                    Err(m) => Err(m),
                    Ok(y) => report_options(rest, i + 2, YearSelection::One(y), true, group),
                },
            }
        }
    } else if rest[i] == "--all"@ {
        if has {
            Err("choose exactly one of --year or --all"@)
        } else {
            report_options(rest, i + 1, YearSelection::All, true, group)
        }
    } else if rest[i] == "--by"@ {
        match value_of(rest, i + 1, "--by") {
            Err(m) => Err(m),
            Ok(v) => match group_of(v) {
                Err(m) => Err(m),
                Ok(g) => report_options(rest, i + 2, years, has, g),
            },
        }
    } else {
        Err("unknown option "@ + debug_text(rest[i]))
    }
}

/// What `ledger report` parses to.
pub open spec fn report_command(args: Seq<Seq<char>>) -> Result<CommandView, Seq<char>> {
    match positional_of(args, "set-dir") {
        Err(m) => Err(m),
        Ok(set_dir) => match report_options(args.skip(1), 0, YearSelection::All, false, ReportGroup::Account) {
            Err(m) => Err(m),
            Ok((years, group)) => Ok(CommandView::Report { set_dir, years, group }),
        },
    }
}

fn reject_duplicate_year_selector(has_selector: bool) -> (r: Result<(), ParseError>)
    ensures
        has_selector ==> (r matches Err(e) && e.0@ == "choose exactly one of --year or --all"@),
        !has_selector ==> r is Ok,
{
    if has_selector {
        return Err(error("choose exactly one of --year or --all"));
    }
    Ok(())
}

fn parse_report(args: &[String]) -> (r: Result<Command, ParseError>)
    ensures
        match report_command(args_view(args@)) {
            Ok(c) => r matches Ok(x) && x@ == c,
            Err(m) => r matches Err(e) && e.0@ == m,
        },
{
    let set_dir = positional(args, "set-dir")?;
    let rest = &args[1..args.len()];
    let ghost av = args_view(args@);
    let ghost rv = av.skip(1);
    assert(rv =~= args_view(rest@));
    let mut years = YearSelection::All;
    let mut has = false;
    let mut group = ReportGroup::Account;
    let mut index: usize = 0;
    while index < rest.len()
        invariant
            av == args_view(args@),
            rv == av.skip(1),
            rv == args_view(rest@),
            positional_of(av, "set-dir") == Ok::<Seq<char>, Seq<char>>(set_dir@),
            report_options(rv, 0, YearSelection::All, false, ReportGroup::Account) == report_options(rv, index as int, years, has, group),
        decreases rest.len() - index,
    {
        let arg = rest[index].as_str();
        if str_is(arg, "--year") {
            reject_duplicate_year_selector(has)?;
            has = true;
            let v = value(rest, index + 1, "--year")?;
            years = YearSelection::One(parse_year(v.as_str())?);
            index += 2;
        } else if str_is(arg, "--all") {
            reject_duplicate_year_selector(has)?;
            has = true;
            years = YearSelection::All;
            index += 1;
        } else if str_is(arg, "--by") {
            let v = value(rest, index + 1, "--by")?;
            group = parse_group(v.as_str())?;
            index += 2;
        } else {
            return Err(error_about("unknown option ", arg));
        }
    }
    Ok(Command::Report { set_dir: set_dir.clone(), years, group })
}

/// The year of a `--year` option list, given the year so far.
pub open spec fn year_options(rest: Seq<Seq<char>>, i: int, year: Option<i32>) -> Result<Option<i32>, Seq<char>>
    decreases rest.len() - i,
{
    if i >= rest.len() || i < 0 {
        Ok(year)
    } else if rest[i] == "--year"@ {
        match value_of(rest, i + 1, "--year") {
            Err(m) => Err(m),
            Ok(v) => match year_of(v) {
                Err(m) => Err(m),
                Ok(y) => year_options(rest, i + 2, Some(y)),
            },
        }
    } else {
        Err("unknown option "@ + debug_text(rest[i]))
    }
}

/// The required `--year` of an option list.
pub open spec fn required_year(rest: Seq<Seq<char>>) -> Result<i32, Seq<char>> {
    match year_options(rest, 0, None) {
        Err(m) => Err(m),
        Ok(None) => Err("missing --year"@),
        Ok(Some(y)) => Ok(y),
    }
}

fn parse_required_year_option(args: &[String]) -> (r: Result<i32, ParseError>)
    ensures
        match required_year(args_view(args@)) {
            Ok(y) => r == Ok::<i32, ParseError>(y),
            Err(m) => r matches Err(e) && e.0@ == m,
        },
{
    let ghost av = args_view(args@);
    let mut year: Option<i32> = None;
    let mut index: usize = 0;
    while index < args.len()
        invariant
            av == args_view(args@),
            year_options(av, 0, None) == year_options(av, index as int, year),
        decreases args.len() - index,
    {
        if str_is(args[index].as_str(), "--year") {
            let v = value(args, index + 1, "--year")?;
            year = Some(parse_year(v.as_str())?);
            index += 2;
        } else {
            return Err(error_about("unknown option ", args[index].as_str()));
        }
    }
    match year {
        Some(y) => Ok(y),
        None => Err(error("missing --year")),
    }
}

/// What `ledger close` parses to.
pub open spec fn close_command(args: Seq<Seq<char>>) -> Result<CommandView, Seq<char>> {
    match positional_of(args, "set-dir") {
        Err(m) => Err(m),
        Ok(set_dir) => match required_year(args.skip(1)) {
            Err(m) => Err(m),
            Ok(year) => Ok(CommandView::Close { set_dir, year }),
        },
    }
}

/// What `ledger statements` parses to.
pub open spec fn statements_command(args: Seq<Seq<char>>) -> Result<CommandView, Seq<char>> {
    match positional_of(args, "set-dir") {
        Err(m) => Err(m),
        Ok(set_dir) => match required_year(args.skip(1)) {
            Err(m) => Err(m),
            Ok(year) => Ok(CommandView::Statements { set_dir, year }),
        },
    }
}

fn parse_close(args: &[String]) -> (r: Result<Command, ParseError>)
    ensures
        match close_command(args_view(args@)) {
            Ok(c) => r matches Ok(x) && x@ == c,
            Err(m) => r matches Err(e) && e.0@ == m,
        },
{
    let set_dir = positional(args, "set-dir")?;
    assert(args_view(args@).skip(1) =~= args_view(args@.skip(1)));
    let year = parse_required_year_option(&args[1..args.len()])?;
    Ok(Command::Close { set_dir: set_dir.clone(), year })
}

fn parse_statements(args: &[String]) -> (r: Result<Command, ParseError>)
    ensures
        match statements_command(args_view(args@)) {
            Ok(c) => r matches Ok(x) && x@ == c,
            Err(m) => r matches Err(e) && e.0@ == m,
        },
{
    let set_dir = positional(args, "set-dir")?;
    assert(args_view(args@).skip(1) =~= args_view(args@.skip(1)));
    let year = parse_required_year_option(&args[1..args.len()])?;
    Ok(Command::Statements { set_dir: set_dir.clone(), year })
}

/// The years of `sru-compare`'s options, given the years so far.
pub open spec fn sru_options(rest: Seq<Seq<char>>, i: int, years: Option<Seq<i32>>) -> Result<Option<Seq<i32>>, Seq<char>>
    decreases rest.len() - i,
{
    if i >= rest.len() || i < 0 {
        Ok(years)
    } else if rest[i] == "--years"@ {
        match value_of(rest, i + 1, "--years") {
            Err(m) => Err(m),
            Ok(v) => match year_list_of(split_on(v, ',')) {
                Err(m) => Err(m),
                Ok(ys) => if ys.len() == 0 {
                    Err("missing --years"@)
                } else {
                    sru_options(rest, i + 2, Some(ys))
                },
            },
        }
    } else {
        Err("unknown option "@ + debug_text(rest[i]))
    }
}

/// What `ledger sru-compare` parses to.
pub open spec fn sru_compare_command(args: Seq<Seq<char>>) -> Result<CommandView, Seq<char>> {
    match positional_of(args, "set-dir") {
        Err(m) => Err(m),
        Ok(set_dir) => match sru_options(args.skip(1), 0, None) {
            Err(m) => Err(m),
            Ok(None) => Err("missing --years"@),
            Ok(Some(years)) => Ok(CommandView::SruCompare { set_dir, years }),
        },
    }
}

fn parse_sru_compare(args: &[String]) -> (r: Result<Command, ParseError>)
    ensures
        match sru_compare_command(args_view(args@)) {
            Ok(c) => r matches Ok(x) && x@ == c,
            Err(m) => r matches Err(e) && e.0@ == m,
        },
{
    let set_dir = positional(args, "set-dir")?;
    let rest = &args[1..args.len()];
    let ghost av = args_view(args@);
    let ghost rv = av.skip(1);
    assert(rv =~= args_view(rest@));
    let mut years: Option<Vec<i32>> = None;
    let mut index: usize = 0;
    while index < rest.len()
        invariant
            av == args_view(args@),
            rv == av.skip(1),
            rv == args_view(rest@),
            positional_of(av, "set-dir") == Ok::<Seq<char>, Seq<char>>(set_dir@),
            sru_options(rv, 0, None) == sru_options(rv, index as int, match years { Some(v) => Some(v@), None => None }),
        decreases rest.len() - index,
    {
        if str_is(rest[index].as_str(), "--years") {
            let v = value(rest, index + 1, "--years")?;
            years = Some(parse_year_list(v.as_str())?);
            index += 2;
        } else {
            return Err(error_about("unknown option ", rest[index].as_str()));
        }
    }
    match years {
        Some(ys) => Ok(Command::SruCompare { set_dir: set_dir.clone(), years: ys }),
        None => Err(error("missing --years")),
    }
}

/// The state of `draft-check`'s options: the date, the text and the postings
/// so far.
pub open spec fn draft_options(args: Seq<Seq<char>>, i: int, date: Option<CalendarDate>, text: Option<Seq<char>>, postings: Seq<DraftPosting>) -> Result<(Option<CalendarDate>, Option<Seq<char>>, Seq<DraftPosting>), Seq<char>>
    decreases args.len() - i,
{
    if i >= args.len() || i < 0 {
        Ok((date, text, postings))
    } else if args[i] == "--date"@ {
        match value_of(args, i + 1, "--date") {
            Err(m) => Err(m),
            Ok(v) => match date_of(v) {
                Err(m) => Err(m),
                Ok(d) => draft_options(args, i + 2, Some(d), text, postings),
            },
        }
    } else if args[i] == "--text"@ {
        match value_of(args, i + 1, "--text") {
            Err(m) => Err(m),
            Ok(v) => draft_options(args, i + 2, date, Some(v), postings),
        }
    } else if args[i] == "--posting"@ {
        match value_of(args, i + 1, "--posting") {
            Err(m) => Err(m),
            Ok(v) => match draft_posting_of(v) {
                Err(m) => Err(m),
                Ok(p) => draft_options(args, i + 2, date, text, postings.push(p)),
            },
        }
    } else {
        Err("unknown option "@ + debug_text(args[i]))
    }
}

/// What `ledger draft-check` parses to.
pub open spec fn draft_check_command(args: Seq<Seq<char>>) -> Result<CommandView, Seq<char>> {
    match draft_options(args, 0, None, None, Seq::empty()) {
        Err(m) => Err(m),
        Ok((None, _, _)) => Err("missing --date"@),
        Ok((Some(_), None, _)) => Err("missing --text"@),
        Ok((Some(date), Some(text), postings)) => Ok(CommandView::DraftCheck { date, text, postings }),
    }
}

fn parse_draft_check(args: &[String]) -> (r: Result<Command, ParseError>)
    ensures
        match draft_check_command(args_view(args@)) {
            Ok(c) => r matches Ok(x) && x@ == c,
            Err(m) => r matches Err(e) && e.0@ == m,
        },
{
    let ghost av = args_view(args@);
    let mut date: Option<CalendarDate> = None;
    let mut text: Option<String> = None;
    let mut postings: Vec<DraftPosting> = Vec::new();
    let mut index: usize = 0;
    while index < args.len()
        invariant
            av == args_view(args@),
            draft_options(av, 0, None, None, Seq::empty()) == draft_options(
                av,
                index as int,
                date,
                match text { Some(t) => Some(t@), None => None },
                postings@,
            ),
        decreases args.len() - index,
    {
        let arg = args[index].as_str();
        if str_is(arg, "--date") {
            let v = value(args, index + 1, "--date")?;
            date = Some(parse_date(v.as_str())?);
            index += 2;
        } else if str_is(arg, "--text") {
            let v = value(args, index + 1, "--text")?;
            text = Some(v.clone());
            index += 2;
        } else if str_is(arg, "--posting") {
            let v = value(args, index + 1, "--posting")?;
            postings.push(parse_draft_posting(v.as_str())?);
            index += 2;
        } else {
            return Err(error_about("unknown option ", arg));
        }
    }
    let date = match date {
        Some(d) => d,
        None => {
            return Err(error("missing --date"));
        },
    };
    let text = match text {
        Some(t) => t,
        None => {
            return Err(error("missing --text"));
        },
    };
    Ok(Command::DraftCheck { date, text, postings })
}

/// What a `ledger` command line (without the program name) parses to.
pub open spec fn command_of(args: Seq<Seq<char>>) -> Result<CommandView, Seq<char>> {
    if args.len() == 0 {
        Err("missing command"@)
    } else {
        let verb = args[0];
        let rest = args.skip(1);
        if verb == "new"@ {
            new_command(rest)
        } else if verb == "import"@ {
            import_command(rest)
        } else if verb == "years"@ {
            years_command(rest)
        } else if verb == "report"@ {
            report_command(rest)
        } else if verb == "close"@ {
            close_command(rest)
        } else if verb == "statements"@ {
            statements_command(rest)
        } else if verb == "sru-compare"@ {
            sru_compare_command(rest)
        } else if verb == "draft-check"@ {
            draft_check_command(rest)
        } else {
            Err("unknown command "@ + debug_text(verb))
        }
    }
}

/// Parse a `ledger` command line (without the program name).
pub fn parse(args: Vec<String>) -> (r: Result<Command, ParseError>)
    ensures
        match command_of(args_view(args@)) {
            Ok(c) => r matches Ok(x) && x@ == c,
            Err(m) => r matches Err(e) && e.0@ == m,
        },
{
    if args.len() == 0 {
        return Err(error("missing command"));
    }
    let verb = args[0].as_str();
    let rest = &args[1..args.len()];
    assert(args_view(args@).skip(1) =~= args_view(rest@));
    if str_is(verb, "new") {
        parse_new(rest)
    } else if str_is(verb, "import") {
        parse_import(rest)
    } else if str_is(verb, "years") {
        parse_years(rest)
    } else if str_is(verb, "report") {
        parse_report(rest)
    } else if str_is(verb, "close") {
        parse_close(rest)
    } else if str_is(verb, "statements") {
        parse_statements(rest)
    } else if str_is(verb, "sru-compare") {
        parse_sru_compare(rest)
    } else if str_is(verb, "draft-check") {
        parse_draft_check(rest)
    } else {
        Err(error_about("unknown command ", verb))
    }
}

} // verus!
