//! The id-list syntax accepted by `--show`, `--restore` and `--delete`.
//!
//! A value such as `2,5,9`, `2-5`, `2~5` or `-5` is read one character at a
//! time by a small state machine. Digits accumulate into a buffer, a comma
//! closes the current id or range, a dash or tilde opens a range, and every
//! other character is ignored.
use vstd::prelude::*;
use crate::text::{all_digits, decimal, decimal_value, is_digit, lemma_decimal};

verus! {

// ---------------------------------------------------------------------------
// Decimal digits
// ---------------------------------------------------------------------------

/// What `str::parse::<u64>` gives for a buffer that holds only digits:
/// the number when the buffer is non-empty and the number fits in a `u64`.
pub open spec fn parse_u64(s: Seq<char>) -> Option<u64> {
    if s.len() > 0 && all_digits(s) && decimal_value(s) <= u64::MAX {
        Some(decimal_value(s) as u64)
    } else {
        None
    }
}

/// The ids `first, first + 1, ..., last` (empty when `first > last`).
pub open spec fn id_range(first: u64, last: u64) -> Seq<u64> {
    Seq::new(
        if first <= last { (last - first + 1) as nat } else { 0 },
        |i: int| (first + i) as u64,
    )
}

/// The single id a buffer denotes, or nothing when it does not parse.
pub open spec fn single_id(buf: Seq<char>) -> Seq<u64> {
    match parse_u64(buf) {
        Some(id) => seq![id],
        None => Seq::empty(),
    }
}

/// The range that ends with the id in `buf`, or nothing when it does not parse.
pub open spec fn range_to(first: u64, buf: Seq<char>) -> Seq<u64> {
    match parse_u64(buf) {
        Some(last) => id_range(first, last),
        None => Seq::empty(),
    }
}

// ---------------------------------------------------------------------------
// The scanner
// ---------------------------------------------------------------------------

/// Where the scanner stands between two characters.
#[derive(Debug, Clone, Copy, PartialEq, Eq, Structural, PartialOrd, Ord)]
pub enum ParseState {
    /// Digits of an id are being collected.
    RecordingId,
    /// A dash or tilde was read; the range starts at the given id.
    WaitingRangeEnd(u64),
    /// At the start, or just after a comma.
    JustComma,
}

/// The scanner's whole state: its mode, the pending digits and the ids so far.
#[verifier::ext_equal]
pub struct Scan {
    pub state: ParseState,
    pub buf: Seq<char>,
    pub out: Seq<u64>,
}

pub open spec fn initial_scan() -> Scan {
    Scan { state: ParseState::JustComma, buf: Seq::empty(), out: Seq::empty() }
}

/// One character of input.
pub open spec fn step(sc: Scan, c: char) -> Scan {
    if is_digit(c) {
        Scan {
            state: if sc.state == ParseState::JustComma { ParseState::RecordingId } else { sc.state },
            buf: sc.buf.push(c),
            out: sc.out,
        }
    } else if c == ',' {
        match sc.state {
            ParseState::WaitingRangeEnd(first) => Scan {
                state: ParseState::JustComma,
                buf: Seq::empty(),
                out: sc.out + range_to(first, sc.buf),
            },
            ParseState::JustComma => sc,
            ParseState::RecordingId => Scan {
                state: ParseState::JustComma,
                buf: Seq::empty(),
                out: sc.out + single_id(sc.buf),
            },
        }
    } else if c == '-' || c == '~' {
        match sc.state {
            ParseState::JustComma => Scan { state: ParseState::WaitingRangeEnd(0), ..sc },
            ParseState::WaitingRangeEnd(_) => sc,
            ParseState::RecordingId => match parse_u64(sc.buf) {
                Some(id) => Scan {
                    state: ParseState::WaitingRangeEnd(id),
                    buf: Seq::empty(),
                    out: sc.out,
                },
                None => Scan { state: ParseState::JustComma, ..sc },
            },
        }
    } else {
        sc
    }
}

/// The state after reading all of `s`, starting from `sc`.
pub open spec fn scan_from(sc: Scan, s: Seq<char>) -> Scan
    decreases s.len(),
{
    if s.len() == 0 {
        sc
    } else {
        step(scan_from(sc, s.drop_last()), s.last())
    }
}

/// The end of input closes whatever id or range is pending.
pub open spec fn finish(sc: Scan) -> Seq<u64> {
    if sc.buf.len() == 0 {
        sc.out
    } else {
        match sc.state {
            ParseState::WaitingRangeEnd(first) => sc.out + range_to(first, sc.buf),
            _ => sc.out + single_id(sc.buf),
        }
    }
}

/// The ids that an id-list value denotes.
pub open spec fn spec_parse_ids(s: Seq<char>) -> Seq<u64> {
    finish(scan_from(initial_scan(), s))
}

// ---------------------------------------------------------------------------
// Executable scanner
// ---------------------------------------------------------------------------

/// `str::parse::<u64>` on a buffer that holds only digits.
fn parse_buf(buf: &Vec<char>) -> (r: Option<u64>)
    requires
        all_digits(buf@),
    ensures
        r == parse_u64(buf@),
{
    if buf.len() == 0 {
        return None;
    }
    let mut v: u64 = 0;
    let mut i: usize = 0;
    while i < buf.len()
        invariant
            0 <= i <= buf.len(),
            all_digits(buf@),
            v == decimal_value(buf@.take(i as int)),
        decreases buf.len() - i,
    {
        assert(buf@.take(i + 1).drop_last() =~= buf@.take(i as int));
        let c = buf[i];
        assert(is_digit(buf@[i as int]));
        let d: u64 = ((c as u32) - ('0' as u32)) as u64;
        match v.checked_mul(10) {
            Some(t) => match t.checked_add(d) {
                Some(n) => {
                    v = n;
                },
                None => {
                    proof { lemma_prefix_too_big(buf@, i as int + 1); }
                    return None;
                },
            },
            None => {
                proof { lemma_prefix_too_big(buf@, i as int + 1); }
                return None;
            },
        }
        i = i + 1;
    }
    assert(buf@.take(buf.len() as int) =~= buf@);
    Some(v)
}

/// A longer digit string denotes at least as large a number as its prefix.
proof fn lemma_prefix_le(s: Seq<char>, k: int)
    requires
        0 <= k <= s.len(),
        all_digits(s),
    ensures
        decimal_value(s.take(k)) <= decimal_value(s),
    decreases s.len() - k,
{
    if k < s.len() {
        let t = s.take(k + 1);
        assert(t.drop_last() =~= s.take(k));
        lemma_prefix_le(s, k + 1);
    } else {
        assert(s.take(k) =~= s);
    }
}

proof fn lemma_prefix_too_big(s: Seq<char>, k: int)
    requires
        0 < k <= s.len(),
        all_digits(s),
        decimal_value(s.take(k)) > u64::MAX,
    ensures
        parse_u64(s) is None,
{
    lemma_prefix_le(s, k);
}

/// Appends `first, ..., last` to `out`.
fn push_range(out: &mut Vec<u64>, first: u64, last: u64)
    ensures
        final(out)@ == old(out)@ + id_range(first, last),
{
    if first > last {
        assert(id_range(first, last) =~= Seq::<u64>::empty());
        assert(old(out)@ + id_range(first, last) =~= old(out)@);
        return;
    }
    let ghost base = out@;
    let mut id = first;
    loop
        invariant_except_break
            first <= id <= last,
            out@ == base + Seq::new((id - first) as nat, |i: int| (first + i) as u64),
        ensures
            out@ == base + id_range(first, last),
        decreases last - id,
    {
        out.push(id);
        assert(out@ =~= base + Seq::new((id + 1 - first) as nat, |i: int| (first + i) as u64));
        if id == last {
            assert(out@ =~= base + id_range(first, last));
            break;
        }
        id = id + 1;
    }
}

/// Reads an id list such as `0,5,6-9`, `2~5` or `-5` (which means `0-5`).
///
/// Digits collect into an id; a comma closes it; a dash or tilde after an id
/// opens a range that the next id closes, and one at the start of an item
/// opens a range from 0. An id that does not fit in a `u64` is dropped, as is
/// a range whose end does not. Every other character is ignored.
pub fn parse_ids(s: &str) -> (ids: Vec<u64>)
    ensures
        ids@ == spec_parse_ids(s@),
{
    let mut out: Vec<u64> = Vec::new();
    let mut buf: Vec<char> = Vec::new();
    let mut state = ParseState::JustComma;
    for c in it: s.chars()
        invariant
            it.seq() == s@,
            all_digits(buf@),
            (Scan { state: state, buf: buf@, out: out@ }) == scan_from(
                initial_scan(),
                s@.take(it.index()),
            ),
    {
        let ghost before = Scan { state: state, buf: buf@, out: out@ };
        proof {
            assert(s@.take(it.index() + 1).drop_last() =~= s@.take(it.index()));
            assert(s@.take(it.index() + 1).last() == c);
        }
        if '0' <= c && c <= '9' {
            if state == ParseState::JustComma {
                state = ParseState::RecordingId;
            }
            buf.push(c);
        } else if c == ',' {
            match state {
                ParseState::WaitingRangeEnd(first) => {
                    if let Some(last) = parse_buf(&buf) {
                        push_range(&mut out, first, last);
                    } else {
                        assert(out@ + range_to(first, buf@) =~= out@);
                    }
                    state = ParseState::JustComma;
                    buf.clear();
                },
                ParseState::JustComma => {},
                ParseState::RecordingId => {
                    if let Some(id) = parse_buf(&buf) {
                        out.push(id);
                    } else {
                        assert(out@ + single_id(buf@) =~= out@);
                    }
                    state = ParseState::JustComma;
                    buf.clear();
                },
            }
        } else if c == '-' || c == '~' {
            match state {
                ParseState::JustComma => {
                    state = ParseState::WaitingRangeEnd(0);
                },
                ParseState::WaitingRangeEnd(_) => {},
                ParseState::RecordingId => {
                    if let Some(id) = parse_buf(&buf) {
                        state = ParseState::WaitingRangeEnd(id);
                        buf.clear();
                    } else {
                        state = ParseState::JustComma;
                    }
                },
            }
        }
        proof {
            assert((Scan { state: state, buf: buf@, out: out@ }) =~= step(before, c));
        }
    }
    proof {
        assert(s@.take(s@.len() as int) =~= s@);
    }
    if buf.len() != 0 {
        match state {
            ParseState::WaitingRangeEnd(first) => {
                if let Some(last) = parse_buf(&buf) {
                    push_range(&mut out, first, last);
                } else {
                    assert(out@ + range_to(first, buf@) =~= out@);
                }
            },
            _ => {
                if let Some(id) = parse_buf(&buf) {
                    out.push(id);
                } else {
                    assert(out@ + single_id(buf@) =~= out@);
                }
            },
        }
    }
    out
}

} // verus!

verus! {

// ---------------------------------------------------------------------------
// What the syntax promises
// ---------------------------------------------------------------------------

/// One item of an id list: `n`, `a-b`, or `-b` (which starts at 0).
pub enum IdItem {
    One(u64),
    Range(u64, u64),
    UpTo(u64),
}

/// How an item is written.
pub open spec fn render_item(item: IdItem) -> Seq<char> {
    match item {
        IdItem::One(n) => decimal(n as nat),
        IdItem::Range(a, b) => decimal(a as nat) + seq!['-'] + decimal(b as nat),
        IdItem::UpTo(b) => seq!['-'] + decimal(b as nat),
    }
}

/// The ids an item stands for.
pub open spec fn expand_item(item: IdItem) -> Seq<u64> {
    match item {
        IdItem::One(n) => seq![n],
        IdItem::Range(a, b) => id_range(a, b),
        IdItem::UpTo(b) => id_range(0, b),
    }
}

/// Items written one after the other, separated by commas.
pub open spec fn render_items(items: Seq<IdItem>) -> Seq<char>
    decreases items.len(),
{
    if items.len() == 0 {
        Seq::empty()
    } else if items.len() == 1 {
        render_item(items[0])
    } else {
        render_items(items.drop_last()) + seq![','] + render_item(items.last())
    }
}

/// The ids of all items, in order.
pub open spec fn expand_items(items: Seq<IdItem>) -> Seq<u64>
    decreases items.len(),
{
    if items.len() == 0 {
        Seq::empty()
    } else {
        expand_items(items.drop_last()) + expand_item(items.last())
    }
}

/// The characters that take part in the syntax.
pub open spec fn is_syntax_char(c: char) -> bool {
    is_digit(c) || c == ',' || c == '-' || c == '~'
}

/// `s` with every tilde written as a dash.
pub open spec fn tildes_as_dashes(s: Seq<char>) -> Seq<char> {
    s.map_values(|c: char| if c == '~' { '-' } else { c })
}

/// The scanner's state after a comma, with the ids read so far.
pub open spec fn clean_scan(out: Seq<u64>) -> Scan {
    Scan { state: ParseState::JustComma, buf: Seq::empty(), out: out }
}

/// Reading `x` and then `y` is reading `x + y`.
pub proof fn lemma_scan_concat(sc: Scan, x: Seq<char>, y: Seq<char>)
    ensures
        scan_from(sc, x + y) == scan_from(scan_from(sc, x), y),
    decreases y.len(),
{
    if y.len() == 0 {
        assert(x + y =~= x);
    } else {
        lemma_scan_concat(sc, x, y.drop_last());
        assert((x + y).drop_last() =~= x + y.drop_last());
        assert((x + y).last() == y.last());
    }
}

/// Reading one character is one step.
proof fn lemma_scan_one(sc: Scan, c: char)
    ensures
        scan_from(sc, seq![c]) == step(sc, c),
{
    assert(seq![c].drop_last() =~= Seq::<char>::empty());
    assert(scan_from(sc, Seq::<char>::empty()) == sc);
}

/// Digits only add to the pending buffer.
proof fn lemma_scan_digits(sc: Scan, d: Seq<char>)
    requires
        all_digits(d),
        d.len() > 0,
    ensures
        scan_from(sc, d) == (Scan {
            state: if sc.state == ParseState::JustComma { ParseState::RecordingId } else { sc.state },
            buf: sc.buf + d,
            out: sc.out,
        }),
    decreases d.len(),
{
    assert(is_digit(d[d.len() - 1]));
    if d.len() == 1 {
        assert(d.drop_last() =~= Seq::<char>::empty());
        assert(sc.buf + d =~= sc.buf.push(d.last()));
    } else {
        let p = d.drop_last();
        assert forall|i: int| 0 <= i < p.len() implies #[trigger] is_digit(p[i]) by {
            assert(p[i] == d[i]);
        }
        lemma_scan_digits(sc, p);
        assert(sc.buf + p + seq![d.last()] =~= sc.buf + d);
        assert((sc.buf + p).push(d.last()) =~= sc.buf + d);
    }
}

/// The decimal writing of `n` reads back as `n`.
proof fn lemma_parse_decimal(n: u64)
    ensures
        parse_u64(decimal(n as nat)) == Some(n),
        all_digits(decimal(n as nat)),
        decimal(n as nat).len() > 0,
{
    lemma_decimal(n as nat);
}

/// From the state after a comma, an item and then a comma add its ids.
proof fn lemma_scan_item(out: Seq<u64>, item: IdItem)
    ensures
        finish(scan_from(clean_scan(out), render_item(item))) == out + expand_item(item),
        step(scan_from(clean_scan(out), render_item(item)), ',') == clean_scan(
            out + expand_item(item),
        ),
{
    match item {
        IdItem::One(n) => {
            lemma_parse_decimal(n);
            lemma_scan_digits(clean_scan(out), decimal(n as nat));
            assert(Seq::<char>::empty() + decimal(n as nat) =~= decimal(n as nat));
        },
        IdItem::Range(a, b) => {
            lemma_parse_decimal(a);
            lemma_parse_decimal(b);
            let da = decimal(a as nat);
            let db = decimal(b as nat);
            lemma_scan_concat(clean_scan(out), da + seq!['-'], db);
            lemma_scan_concat(clean_scan(out), da, seq!['-']);
            lemma_scan_digits(clean_scan(out), da);
            assert(Seq::<char>::empty() + da =~= da);
            lemma_scan_one(scan_from(clean_scan(out), da), '-');
            let mid = scan_from(clean_scan(out), da + seq!['-']);
            assert(mid == (Scan {
                state: ParseState::WaitingRangeEnd(a),
                buf: Seq::empty(),
                out: out,
            }));
            lemma_scan_digits(mid, db);
            assert(Seq::<char>::empty() + db =~= db);
            assert(render_item(item) == da + seq!['-'] + db);
        },
        IdItem::UpTo(b) => {
            lemma_parse_decimal(b);
            let db = decimal(b as nat);
            lemma_scan_concat(clean_scan(out), seq!['-'], db);
            lemma_scan_one(clean_scan(out), '-');
            let mid = scan_from(clean_scan(out), seq!['-']);
            assert(mid == (Scan {
                state: ParseState::WaitingRangeEnd(0),
                buf: Seq::empty(),
                out: out,
            }));
            lemma_scan_digits(mid, db);
            assert(Seq::<char>::empty() + db =~= db);
        },
    }
}

proof fn lemma_scan_items(items: Seq<IdItem>)
    requires
        items.len() > 0,
    ensures
        finish(scan_from(initial_scan(), render_items(items))) == expand_items(items),
        step(scan_from(initial_scan(), render_items(items)), ',') == clean_scan(
            expand_items(items),
        ),
    decreases items.len(),
{
    assert(initial_scan() == clean_scan(Seq::empty()));
    if items.len() == 1 {
        lemma_scan_item(Seq::empty(), items[0]);
        assert(items.drop_last() =~= Seq::<IdItem>::empty());
        assert(Seq::<u64>::empty() + expand_item(items[0]) =~= expand_item(items[0]));
        assert(expand_items(items.drop_last()) == Seq::<u64>::empty());
        assert(items.last() == items[0]);
        assert(expand_items(items) == expand_item(items[0]));
        assert(render_items(items) == render_item(items[0]));
    } else {
        let head = items.drop_last();
        lemma_scan_items(head);
        let x = render_items(head);
        let y = render_item(items.last());
        lemma_scan_concat(initial_scan(), x + seq![','], y);
        lemma_scan_concat(initial_scan(), x, seq![',']);
        lemma_scan_one(scan_from(initial_scan(), x), ',');
        lemma_scan_item(expand_items(head), items.last());
        assert(render_items(items) == x + seq![','] + y);
        assert(scan_from(initial_scan(), x + seq![',']) == clean_scan(expand_items(head)));
        assert(scan_from(initial_scan(), render_items(items)) == scan_from(clean_scan(expand_items(head)), y));
        assert(expand_items(items) == expand_items(head) + expand_item(items.last()));
    }
}

/// A comma-separated list of ids, ranges `a-b` and open ranges `-b` denotes
/// the ids of its items in order: `0,6,7-9` gives 0, 6, 7, 8, 9 and `-5`
/// gives 0 through 5.
pub proof fn lemma_id_list(items: Seq<IdItem>)
    requires
        items.len() > 0,
    ensures
        spec_parse_ids(render_items(items)) == expand_items(items),
{
    lemma_scan_items(items);
}

/// A trailing comma changes nothing: `0,5,6,70,` gives 0, 5, 6, 70.
pub proof fn lemma_id_list_trailing_comma(items: Seq<IdItem>)
    requires
        items.len() > 0,
    ensures
        spec_parse_ids(render_items(items) + seq![',']) == expand_items(items),
{
    lemma_scan_items(items);
    lemma_scan_concat(initial_scan(), render_items(items), seq![',']);
    lemma_scan_one(scan_from(initial_scan(), render_items(items)), ',');
}

/// Every character other than a digit, a comma, a dash or a tilde is
/// ignored: removing all of them does not change the ids.
pub proof fn lemma_other_chars_ignored(s: Seq<char>)
    ensures
        spec_parse_ids(s) == spec_parse_ids(s.filter(|c: char| is_syntax_char(c))),
{
    lemma_scan_filter(initial_scan(), s);
}

proof fn lemma_scan_filter(sc: Scan, s: Seq<char>)
    ensures
        scan_from(sc, s) == scan_from(sc, s.filter(|c: char| is_syntax_char(c))),
    decreases s.len(),
{
    reveal(Seq::filter);
    let keep = |c: char| is_syntax_char(c);
    if s.len() > 0 {
        lemma_scan_filter(sc, s.drop_last());
        let f = s.filter(keep);
        let g = s.drop_last().filter(keep);
        if keep(s.last()) {
            assert(f == g.push(s.last()));
            assert(f.drop_last() =~= g);
        } else {
            assert(f == g);
        }
    } else {
        assert(s.filter(keep) == s);
    }
}

/// A tilde and a dash mean the same: `2~5` is `2-5`.
pub proof fn lemma_tilde_is_dash(s: Seq<char>)
    ensures
        spec_parse_ids(s) == spec_parse_ids(tildes_as_dashes(s)),
{
    lemma_scan_tilde(initial_scan(), s);
}

proof fn lemma_scan_tilde(sc: Scan, s: Seq<char>)
    ensures
        scan_from(sc, s) == scan_from(sc, tildes_as_dashes(s)),
    decreases s.len(),
{
    if s.len() > 0 {
        lemma_scan_tilde(sc, s.drop_last());
        assert(tildes_as_dashes(s).drop_last() =~= tildes_as_dashes(s.drop_last()));
    } else {
        assert(tildes_as_dashes(s) =~= s);
    }
}

// ---------------------------------------------------------------------------
// Joining two lists with a comma
// ---------------------------------------------------------------------------

/// The digits at the end of `s` since its last comma, dash or tilde, other
/// characters left out.
pub open spec fn trailing_run(s: Seq<char>) -> Seq<char>
    decreases s.len(),
{
    if s.len() == 0 {
        Seq::empty()
    } else if !is_syntax_char(s.last()) {
        trailing_run(s.drop_last())
    } else if is_digit(s.last()) {
        trailing_run(s.drop_last()).push(s.last())
    } else {
        Seq::empty()
    }
}

/// Every run of digits in `s`, once the characters outside the syntax are
/// left out, denotes a number that fits in a `u64`.
pub open spec fn runs_fit(s: Seq<char>) -> bool {
    forall|k: int| 0 <= k <= s.len() ==> decimal_value(#[trigger] trailing_run(s.take(k))) <= u64::MAX
}

/// What the scanner keeps of `s` when no run of digits overflows: nothing
/// pending after a comma, and the current run while an id is recorded.
pub open spec fn scan_inv(sc: Scan, s: Seq<char>) -> bool {
    &&& sc.state == ParseState::JustComma ==> sc.buf.len() == 0 && trailing_run(s).len() == 0
    &&& sc.state == ParseState::RecordingId ==> sc.buf == trailing_run(s) && sc.buf.len() > 0
}

proof fn lemma_trailing_run_digits(s: Seq<char>)
    ensures
        all_digits(trailing_run(s)),
    decreases s.len(),
{
    if s.len() > 0 {
        lemma_trailing_run_digits(s.drop_last());
        let r = trailing_run(s.drop_last());
        if is_syntax_char(s.last()) && is_digit(s.last()) {
            assert forall|i: int| 0 <= i < r.push(s.last()).len() implies #[trigger] is_digit(
                r.push(s.last())[i],
            ) by {
                if i < r.len() {
                    assert(r.push(s.last())[i] == r[i]);
                }
            }
        }
    }
}

proof fn lemma_scan_inv(s: Seq<char>)
    requires
        runs_fit(s),
    ensures
        scan_inv(scan_from(initial_scan(), s), s),
    decreases s.len(),
{
    if s.len() > 0 {
        let p = s.drop_last();
        let c = s.last();
        assert forall|k: int| 0 <= k <= p.len() implies decimal_value(
            #[trigger] trailing_run(p.take(k)),
        ) <= u64::MAX by {
            assert(p.take(k) =~= s.take(k));
        }
        lemma_scan_inv(p);
        let sc = scan_from(initial_scan(), p);
        assert(scan_from(initial_scan(), s) == step(sc, c));
        if (c == '-' || c == '~') && sc.state == ParseState::RecordingId {
            assert(s.take(p.len() as int) =~= p);
            assert(decimal_value(trailing_run(s.take(p.len() as int))) <= u64::MAX);
            lemma_trailing_run_digits(p);
            assert(parse_u64(sc.buf) is Some);
        }
        if is_digit(c) {
            assert(is_syntax_char(c));
            assert(trailing_run(s) == trailing_run(p).push(c));
            if sc.state == ParseState::JustComma {
                assert(trailing_run(p) =~= Seq::<char>::empty());
                assert(sc.buf =~= Seq::<char>::empty());
                assert(sc.buf.push(c) =~= trailing_run(p).push(c));
            }
        } else if is_syntax_char(c) {
            assert(trailing_run(s) == Seq::<char>::empty());
        } else {
            assert(trailing_run(s) == trailing_run(p));
        }
    }
}

/// `sc` with `o` before the ids it has read.
pub open spec fn shifted(sc: Scan, o: Seq<u64>) -> Scan {
    Scan { state: sc.state, buf: sc.buf, out: o + sc.out }
}

proof fn lemma_step_shifted(sc: Scan, o: Seq<u64>, c: char)
    ensures
        step(shifted(sc, o), c) == shifted(step(sc, c), o),
{
    assert((o + sc.out) + range_to(sc.state->WaitingRangeEnd_0, sc.buf) =~= o + (sc.out + range_to(
        sc.state->WaitingRangeEnd_0,
        sc.buf,
    )));
    assert((o + sc.out) + single_id(sc.buf) =~= o + (sc.out + single_id(sc.buf)));
    assert(step(shifted(sc, o), c) =~= shifted(step(sc, c), o));
}

proof fn lemma_scan_shifted(sc: Scan, o: Seq<u64>, s: Seq<char>)
    ensures
        scan_from(shifted(sc, o), s) == shifted(scan_from(sc, s), o),
    decreases s.len(),
{
    if s.len() > 0 {
        lemma_scan_shifted(sc, o, s.drop_last());
        lemma_step_shifted(scan_from(sc, s.drop_last()), o, s.last());
    }
}

proof fn lemma_finish_shifted(sc: Scan, o: Seq<u64>)
    ensures
        finish(shifted(sc, o)) == o + finish(sc),
{
    assert((o + sc.out) + range_to(sc.state->WaitingRangeEnd_0, sc.buf) =~= o + (sc.out + range_to(
        sc.state->WaitingRangeEnd_0,
        sc.buf,
    )));
    assert((o + sc.out) + single_id(sc.buf) =~= o + (sc.out + single_id(sc.buf)));
}

/// A comma joins two id lists: `a,b` denotes the ids of `a` followed by those
/// of `b`, as long as no run of digits in `a` overflows a `u64`.
pub proof fn lemma_comma_joins_lists(a: Seq<char>, b: Seq<char>)
    requires
        runs_fit(a),
    ensures
        spec_parse_ids(a + seq![','] + b) == spec_parse_ids(a) + spec_parse_ids(b),
{
    let sa = scan_from(initial_scan(), a);
    let ids_a = finish(sa);
    lemma_scan_concat(initial_scan(), a + seq![','], b);
    lemma_scan_concat(initial_scan(), a, seq![',']);
    lemma_scan_one(sa, ',');
    lemma_scan_inv(a);
    assert(range_to(0, Seq::empty()) =~= Seq::<u64>::empty());
    assert(parse_u64(Seq::<char>::empty()) is None);
    assert(sa.out + Seq::<u64>::empty() =~= sa.out);
    assert(step(sa, ',') =~= clean_scan(ids_a));
    assert(clean_scan(ids_a) =~= shifted(initial_scan(), ids_a));
    lemma_scan_shifted(initial_scan(), ids_a, b);
    lemma_finish_shifted(scan_from(initial_scan(), b), ids_a);
}

} // verus!
