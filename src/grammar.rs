//! The grammar of one trace-file line, as a function from its characters to
//! the record it denotes.

use vstd::prelude::*;
use crate::record::RecordView;
use crate::text::{decimal, digit_char, digit_value, is_digit, is_numeral, is_u32_numeral, numeral_value};

verus! {

/// Does `s` start with `p`?
pub open spec fn has_prefix(s: Seq<char>, p: Seq<char>) -> bool {
    p.len() <= s.len() && s.take(p.len() as int) == p
}

/// Index of the first comma of `t`, or its length when it has none.
pub open spec fn comma_pos(t: Seq<char>) -> int
    decreases t.len(),
{
    if t.len() == 0 || t[0] == ',' {
        0
    } else {
        1 + comma_pos(t.drop_first())
    }
}

/// The body of a line: its characters before the terminating line feed,
/// with any carriage returns that end them dropped.
pub open spec fn strip_cr(s: Seq<char>) -> Seq<char>
    decreases s.len(),
{
    if s.len() > 0 && s.last() == '\r' {
        strip_cr(s.drop_last())
    } else {
        s
    }
}

/// A field holding an unsigned 32-bit numeral.
pub open spec fn num_field(t: Seq<char>) -> Option<u32> {
    if is_u32_numeral(t) {
        Some(numeral_value(t) as u32)
    } else {
        None
    }
}

/// A free-text field: anything but empty.
pub open spec fn text_field(t: Seq<char>) -> Option<Seq<char>> {
    if t.len() > 0 {
        Some(t)
    } else {
        None
    }
}

/// `<number>,<text>`
pub open spec fn num_text(t: Seq<char>) -> Option<(u32, Seq<char>)> {
    let k = comma_pos(t);
    if k < t.len() {
        match (num_field(t.take(k)), text_field(t.skip(k + 1))) {
            (Some(n), Some(x)) => Some((n, x)),
            _ => None,
        }
    } else {
        None
    }
}

/// `<line>,<count>[,<checksum>]`
pub open spec fn line_data_fields(t: Seq<char>) -> Option<(u32, u32, Option<Seq<char>>)> {
    let k = comma_pos(t);
    if k < t.len() {
        let rest = t.skip(k + 1);
        let k2 = comma_pos(rest);
        if k2 < rest.len() {
            match (num_field(t.take(k)), num_field(rest.take(k2)), text_field(rest.skip(k2 + 1))) {
                (Some(l), Some(c), Some(x)) => Some((l, c, Some(x))),
                _ => None,
            }
        } else {
            match (num_field(t.take(k)), num_field(rest)) {
                (Some(l), Some(c)) => Some((l, c, None)),
                _ => None,
            }
        }
    } else {
        None
    }
}

/// The `<taken>` field of branch data: a count, or `-` for zero.
pub open spec fn taken_field(t: Seq<char>) -> Option<u32> {
    if t == seq!['-'] {
        Some(0)
    } else {
        num_field(t)
    }
}

/// `<line>,<block>,<branch>,<taken>`
pub open spec fn branch_fields(t: Seq<char>) -> Option<(u32, u32, u32, u32)> {
    let k1 = comma_pos(t);
    let r1 = t.skip(k1 + 1);
    let k2 = comma_pos(r1);
    let r2 = r1.skip(k2 + 1);
    let k3 = comma_pos(r2);
    let r3 = r2.skip(k3 + 1);
    if k1 < t.len() && k2 < r1.len() && k3 < r2.len() {
        match (num_field(t.take(k1)), num_field(r1.take(k2)), num_field(r2.take(k3)), taken_field(r3)) {
            (Some(a), Some(b), Some(c), Some(d)) => Some((a, b, c, d)),
            _ => None,
        }
    } else {
        None
    }
}

pub open spec fn tag_tn() -> Seq<char> { seq!['T', 'N', ':'] }
pub open spec fn tag_sf() -> Seq<char> { seq!['S', 'F', ':'] }
pub open spec fn tag_fn() -> Seq<char> { seq!['F', 'N', ':'] }
pub open spec fn tag_fnda() -> Seq<char> { seq!['F', 'N', 'D', 'A', ':'] }
pub open spec fn tag_fnf() -> Seq<char> { seq!['F', 'N', 'F', ':'] }
pub open spec fn tag_fnh() -> Seq<char> { seq!['F', 'N', 'H', ':'] }
pub open spec fn tag_da() -> Seq<char> { seq!['D', 'A', ':'] }
pub open spec fn tag_lf() -> Seq<char> { seq!['L', 'F', ':'] }
pub open spec fn tag_lh() -> Seq<char> { seq!['L', 'H', ':'] }
pub open spec fn tag_brda() -> Seq<char> { seq!['B', 'R', 'D', 'A', ':'] }
pub open spec fn tag_brf() -> Seq<char> { seq!['B', 'R', 'F', ':'] }
pub open spec fn tag_brh() -> Seq<char> { seq!['B', 'R', 'H', ':'] }
pub open spec fn end_of_record_text() -> Seq<char> {
    seq!['e', 'n', 'd', '_', 'o', 'f', '_', 'r', 'e', 'c', 'o', 'r', 'd']
}

/// The payload after the tag `p`.
pub open spec fn payload(b: Seq<char>, p: Seq<char>) -> Seq<char> {
    b.skip(p.len() as int)
}

/// The record that a line body denotes, if any.
pub open spec fn parse_body(b: Seq<char>) -> Option<RecordView> {
    if b == end_of_record_text() {
        Some(RecordView::EndOfRecord)
    } else if has_prefix(b, tag_tn()) {
        let t = payload(b, tag_tn());
        Some(RecordView::TestName(text_field(t)))
    } else if has_prefix(b, tag_sf()) {
        match text_field(payload(b, tag_sf())) {
            Some(t) => Some(RecordView::SourceFile(t)),
            None => None,
        }
    } else if has_prefix(b, tag_fn()) {
        match num_text(payload(b, tag_fn())) {
            Some((n, x)) => Some(RecordView::FunctionName(n, x)),
            None => None,
        }
    } else if has_prefix(b, tag_fnda()) {
        match num_text(payload(b, tag_fnda())) {
            Some((n, x)) => Some(RecordView::FunctionData(n, x)),
            None => None,
        }
    } else if has_prefix(b, tag_fnf()) {
        match num_field(payload(b, tag_fnf())) {
            Some(n) => Some(RecordView::FunctionsFound(n)),
            None => None,
        }
    } else if has_prefix(b, tag_fnh()) {
        match num_field(payload(b, tag_fnh())) {
            Some(n) => Some(RecordView::FunctionsHit(n)),
            None => None,
        }
    } else if has_prefix(b, tag_da()) {
        match line_data_fields(payload(b, tag_da())) {
            Some((l, c, x)) => Some(RecordView::Data(l, c, x)),
            None => None,
        }
    } else if has_prefix(b, tag_lf()) {
        match num_field(payload(b, tag_lf())) {
            Some(n) => Some(RecordView::LinesFound(n)),
            None => None,
        }
    } else if has_prefix(b, tag_lh()) {
        match num_field(payload(b, tag_lh())) {
            Some(n) => Some(RecordView::LinesHit(n)),
            None => None,
        }
    } else if has_prefix(b, tag_brda()) {
        match branch_fields(payload(b, tag_brda())) {
            Some((l, k, r, t)) => Some(RecordView::BranchData(l, k, r, t)),
            None => None,
        }
    } else if has_prefix(b, tag_brf()) {
        match num_field(payload(b, tag_brf())) {
            Some(n) => Some(RecordView::BranchesFound(n)),
            None => None,
        }
    } else if has_prefix(b, tag_brh()) {
        match num_field(payload(b, tag_brh())) {
            Some(n) => Some(RecordView::BranchesHit(n)),
            None => None,
        }
    } else {
        None
    }
}

/// Is `line` one terminated line: a line feed at its end and nowhere else?
pub open spec fn is_terminated_line(line: Seq<char>) -> bool {
    &&& line.len() > 0
    &&& line.last() == '\n'
    &&& forall|i: int| 0 <= i < line.len() - 1 ==> #[trigger] line[i] != '\n'
}

/// The record that one line of a trace file denotes, or `None` when the line
/// breaks the grammar.
pub open spec fn parse_line_spec(line: Seq<char>) -> Option<RecordView> {
    if is_terminated_line(line) {
        parse_body(strip_cr(line.drop_last()))
    } else {
        None
    }
}

/// Length of the first line of `s`, its line feed included; all of `s`
/// when it holds no line feed.
pub open spec fn first_line_len(s: Seq<char>) -> int
    decreases s.len(),
{
    if s.len() == 0 {
        0
    } else if s[0] == '\n' {
        1
    } else {
        1 + first_line_len(s.drop_first())
    }
}

/// The length of the record tag that a line body starts with; 0 when it
/// starts with none.
pub open spec fn tag_len(b: Seq<char>) -> int {
    if has_prefix(b, tag_tn()) || has_prefix(b, tag_sf()) || has_prefix(b, tag_fn()) {
        3
    } else if has_prefix(b, tag_fnda()) {
        5
    } else if has_prefix(b, tag_fnf()) || has_prefix(b, tag_fnh()) {
        4
    } else if has_prefix(b, tag_da()) || has_prefix(b, tag_lf()) || has_prefix(b, tag_lh()) {
        3
    } else if has_prefix(b, tag_brda()) {
        5
    } else if has_prefix(b, tag_brf()) || has_prefix(b, tag_brh()) {
        4
    } else {
        0
    }
}

/// The 1-based column where reading a line that breaks the grammar stops:
/// just past its end when it lacks its line feed; at a line feed before its
/// end; otherwise where the fields of its record begin, or at its start when
/// it names no record type.
pub open spec fn error_column(line: Seq<char>) -> int {
    if !(line.len() > 0 && line.last() == '\n') {
        line.len() + 1int
    } else if !is_terminated_line(line) {
        first_line_len(line)
    } else {
        tag_len(strip_cr(line.drop_last())) + 1
    }
}

/// The records of a whole text, line by line; on the first line that breaks
/// the grammar, its 1-based number, the column where reading it stopped and
/// its text.
pub open spec fn parse_text_spec(s: Seq<char>) -> Result<Seq<RecordView>, (nat, int, Seq<char>)>
    decreases s.len() via parse_text_decreases
{
    if s.len() == 0 {
        Ok(Seq::empty())
    } else {
        let n = first_line_len(s);
        match parse_line_spec(s.take(n)) {
            Some(r) => match parse_text_spec(s.skip(n)) {
                Ok(rs) => Ok(seq![r] + rs),
                Err((k, c, t)) => Err((k + 1, c, t)),
            },
            None => Err((1, error_column(s.take(n)), s.take(n))),
        }
    }
}

/// A non-empty text has a first line of one character or more, and no
/// longer than the text.
pub proof fn lemma_first_line_len(s: Seq<char>)
    ensures
        s.len() > 0 ==> 1 <= first_line_len(s) <= s.len(),
        s.len() == 0 ==> first_line_len(s) == 0,
    decreases s.len(),
{
    if s.len() > 0 && s[0] != '\n' {
        lemma_first_line_len(s.drop_first());
    }
}

/// The first line feed of `s` is at `k`.
pub proof fn lemma_first_line_len_at(s: Seq<char>, k: int)
    requires
        0 <= k < s.len(),
        s[k] == '\n',
        forall|j: int| 0 <= j < k ==> #[trigger] s[j] != '\n',
    ensures
        first_line_len(s) == k + 1,
    decreases k,
{
    if k > 0 {
        assert forall|j: int| 0 <= j < k - 1 implies #[trigger] s.drop_first()[j] != '\n' by {
            assert(s.drop_first()[j] == s[j + 1]);
        }
        lemma_first_line_len_at(s.drop_first(), k - 1);
    }
}

#[via_fn]
proof fn parse_text_decreases(s: Seq<char>) {
    lemma_first_line_len(s);
}


/// The canonical text of a record, without its line break: numbers in
/// decimal without leading zeros, a branch never reached written as `0`.
pub open spec fn record_body(v: RecordView) -> Seq<char> {
    let c = seq![','];
    match v {
        RecordView::TestName(None) => tag_tn(),
        RecordView::TestName(Some(n)) => tag_tn() + n,
        RecordView::SourceFile(p) => tag_sf() + p,
        RecordView::Data(l, n, None) => tag_da() + decimal(l as nat) + c + decimal(n as nat),
        RecordView::Data(l, n, Some(x)) => tag_da() + decimal(l as nat) + c + decimal(n as nat) + c + x,
        RecordView::FunctionName(l, x) => tag_fn() + decimal(l as nat) + c + x,
        RecordView::FunctionData(n, x) => tag_fnda() + decimal(n as nat) + c + x,
        RecordView::FunctionsFound(n) => tag_fnf() + decimal(n as nat),
        RecordView::FunctionsHit(n) => tag_fnh() + decimal(n as nat),
        RecordView::LinesHit(n) => tag_lh() + decimal(n as nat),
        RecordView::LinesFound(n) => tag_lf() + decimal(n as nat),
        RecordView::BranchData(l, b, r, t) => tag_brda() + decimal(l as nat) + c + decimal(b as nat) + c
            + decimal(r as nat) + c + decimal(t as nat),
        RecordView::BranchesFound(n) => tag_brf() + decimal(n as nat),
        RecordView::BranchesHit(n) => tag_brh() + decimal(n as nat),
        RecordView::EndOfRecord => end_of_record_text(),
    }
}

/// The canonical line of a record, its line feed included.
pub open spec fn record_line(v: RecordView) -> Seq<char> {
    record_body(v).push('\n')
}

/// A text that a free-text field can hold on its own line: not empty, no
/// line feed, and no carriage return at its end.
pub open spec fn clean_text(t: Seq<char>) -> bool {
    &&& t.len() > 0
    &&& forall|i: int| 0 <= i < t.len() ==> #[trigger] t[i] != '\n'
    &&& t.last() != '\r'
}

/// The free-text fields of a record are clean.
pub open spec fn clean_record(v: RecordView) -> bool {
    match v {
        RecordView::TestName(Some(n)) => clean_text(n),
        RecordView::SourceFile(p) => clean_text(p),
        RecordView::Data(_, _, Some(x)) => clean_text(x),
        RecordView::FunctionName(_, x) => clean_text(x),
        RecordView::FunctionData(_, x) => clean_text(x),
        _ => true,
    }
}

proof fn lemma_digit_char(d: nat)
    requires
        d < 10,
    ensures
        is_digit(digit_char(d)),
        digit_value(digit_char(d)) == d,
{
    if d == 0 {
        assert(digit_char(d) == '0');
    } else if d == 1 {
        assert(digit_char(d) == '1');
    } else if d == 2 {
        assert(digit_char(d) == '2');
    } else if d == 3 {
        assert(digit_char(d) == '3');
    } else if d == 4 {
        assert(digit_char(d) == '4');
    } else if d == 5 {
        assert(digit_char(d) == '5');
    } else if d == 6 {
        assert(digit_char(d) == '6');
    } else if d == 7 {
        assert(digit_char(d) == '7');
    } else if d == 8 {
        assert(digit_char(d) == '8');
    } else {
        assert(digit_char(d) == '9');
    }
}

proof fn lemma_decimal(n: nat)
    ensures
        is_numeral(decimal(n)),
        numeral_value(decimal(n)) == n,
    decreases n,
{
    lemma_digit_char(n % 10);
    if n >= 10 {
        lemma_decimal(n / 10);
        let d = decimal(n);
        assert(d.drop_last() =~= decimal(n / 10));
        assert forall|i: int| 0 <= i < d.len() implies is_digit(#[trigger] d[i]) by {
            if i < d.len() - 1 {
                assert(d[i] == decimal(n / 10)[i]);
            }
        }
        assert(d.last() == digit_char(n % 10));
        assert(numeral_value(d) == numeral_value(decimal(n / 10)) * 10 + digit_value(digit_char(n % 10)));
        assert(n == (n / 10) * 10 + n % 10) by (nonlinear_arith);
    } else {
        let d = decimal(n);
        assert(d.drop_last() =~= Seq::<char>::empty());
        assert(d.last() == digit_char(n));
        assert(numeral_value(d) == numeral_value(d.drop_last()) * 10 + digit_value(d.last()));
        assert(is_digit(d[0]));
    }
}

proof fn lemma_comma_pos(a: Seq<char>, rest: Seq<char>)
    requires
        forall|i: int| 0 <= i < a.len() ==> #[trigger] a[i] != ',',
        rest.len() == 0 || rest[0] == ',',
    ensures
        comma_pos(a + rest) == a.len(),
    decreases a.len(),
{
    if a.len() > 0 {
        assert((a + rest).drop_first() =~= a.drop_first() + rest);
        lemma_comma_pos(a.drop_first(), rest);
    } else {
        assert(a + rest =~= rest);
    }
}

/// `n`'s numeral followed by `rest`, split at the first comma.
proof fn lemma_numeral_field(n: u32, rest: Seq<char>)
    requires
        rest.len() == 0 || rest[0] == ',',
    ensures
        comma_pos(decimal(n as nat) + rest) == decimal(n as nat).len(),
        (decimal(n as nat) + rest).take(decimal(n as nat).len() as int) == decimal(n as nat),
        (decimal(n as nat) + rest).skip(decimal(n as nat).len() as int) == rest,
        num_field(decimal(n as nat)) == Some(n),
        decimal(n as nat) != seq!['-'],
{
    let d = decimal(n as nat);
    lemma_decimal(n as nat);
    assert forall|i: int| 0 <= i < d.len() implies #[trigger] d[i] != ',' by {
        assert(is_digit(d[i]));
    }
    lemma_comma_pos(d, rest);
    assert((d + rest).take(d.len() as int) =~= d);
    assert((d + rest).skip(d.len() as int) =~= rest);
    if d == seq!['-'] {
        assert(is_digit(d[0]));
    }
}

/// A line made of a clean body and a line feed parses as its body.
proof fn lemma_line_of_body(b: Seq<char>)
    requires
        no_line_feed(b),
        b.len() == 0 || b.last() != '\r',
    ensures
        parse_line_spec(b.push('\n')) == parse_body(b),
{
    let l = b.push('\n');
    assert(l.drop_last() =~= b);
    assert forall|i: int| 0 <= i < l.len() - 1 implies #[trigger] l[i] != '\n' by {
        assert(l[i] == b[i]);
    }
}

proof fn lemma_prefix_chars(b: Seq<char>, t: Seq<char>)
    requires
        3 <= t.len() <= 5,
    ensures
        has_prefix(b, t) <==> (t.len() <= b.len() && b[0] == t[0] && b[1] == t[1] && b[2] == t[2]
            && (t.len() > 3 ==> b[3] == t[3]) && (t.len() > 4 ==> b[4] == t[4])),
{
    if t.len() <= b.len() {
        if b[0] == t[0] && b[1] == t[1] && b[2] == t[2] && (t.len() > 3 ==> b[3] == t[3]) && (
        t.len() > 4 ==> b[4] == t[4]) {
            assert(b.take(t.len() as int) =~= t);
        } else {
            let k = b.take(t.len() as int);
            if k == t {
                assert(k[0] == t[0] && k[1] == t[1] && k[2] == t[2]);
                if t.len() > 3 {
                    assert(k[3] == t[3]);
                }
                if t.len() > 4 {
                    assert(k[4] == t[4]);
                }
            }
        }
    }
}

#[verifier::rlimit(50)]
proof fn lemma_tag_prefixes(b: Seq<char>)
    ensures
        has_prefix(b, tag_tn()) <==> (3 <= b.len() && b[0] == 'T' && b[1] == 'N' && b[2] == ':'),
        has_prefix(b, tag_sf()) <==> (3 <= b.len() && b[0] == 'S' && b[1] == 'F' && b[2] == ':'),
        has_prefix(b, tag_fn()) <==> (3 <= b.len() && b[0] == 'F' && b[1] == 'N' && b[2] == ':'),
        has_prefix(b, tag_fnda()) <==> (5 <= b.len() && b[0] == 'F' && b[1] == 'N' && b[2] == 'D'
            && b[3] == 'A' && b[4] == ':'),
        has_prefix(b, tag_fnf()) <==> (4 <= b.len() && b[0] == 'F' && b[1] == 'N' && b[2] == 'F'
            && b[3] == ':'),
        has_prefix(b, tag_fnh()) <==> (4 <= b.len() && b[0] == 'F' && b[1] == 'N' && b[2] == 'H'
            && b[3] == ':'),
        has_prefix(b, tag_da()) <==> (3 <= b.len() && b[0] == 'D' && b[1] == 'A' && b[2] == ':'),
        has_prefix(b, tag_lf()) <==> (3 <= b.len() && b[0] == 'L' && b[1] == 'F' && b[2] == ':'),
        has_prefix(b, tag_lh()) <==> (3 <= b.len() && b[0] == 'L' && b[1] == 'H' && b[2] == ':'),
        has_prefix(b, tag_brda()) <==> (5 <= b.len() && b[0] == 'B' && b[1] == 'R' && b[2] == 'D'
            && b[3] == 'A' && b[4] == ':'),
        has_prefix(b, tag_brf()) <==> (4 <= b.len() && b[0] == 'B' && b[1] == 'R' && b[2] == 'F'
            && b[3] == ':'),
        has_prefix(b, tag_brh()) <==> (4 <= b.len() && b[0] == 'B' && b[1] == 'R' && b[2] == 'H'
            && b[3] == ':'),
        b == end_of_record_text() ==> b.len() == 13 && b[0] == 'e',
{
    lemma_prefix_chars(b, tag_tn());
    lemma_prefix_chars(b, tag_sf());
    lemma_prefix_chars(b, tag_fn());
    lemma_prefix_chars(b, tag_fnda());
    lemma_prefix_chars(b, tag_fnf());
    lemma_prefix_chars(b, tag_fnh());
    lemma_prefix_chars(b, tag_da());
    lemma_prefix_chars(b, tag_lf());
    lemma_prefix_chars(b, tag_lh());
    lemma_prefix_chars(b, tag_brda());
    lemma_prefix_chars(b, tag_brf());
    lemma_prefix_chars(b, tag_brh());
}

/// Digits are neither line feeds nor carriage returns nor commas.
proof fn lemma_decimal_plain(n: nat)
    ensures
        forall|i: int| 0 <= i < decimal(n).len() ==> #[trigger] decimal(n)[i] != '\n' && decimal(n)[i]
            != '\r' && decimal(n)[i] != ',' && decimal(n)[i] != '-',
        decimal(n).len() > 0,
{
    lemma_decimal(n);
    assert forall|i: int| 0 <= i < decimal(n).len() implies #[trigger] decimal(n)[i] != '\n'
        && decimal(n)[i] != '\r' && decimal(n)[i] != ',' && decimal(n)[i] != '-' by {
        assert(is_digit(decimal(n)[i]));
    }
}

/// No line feed in `s`.
pub open spec fn no_line_feed(s: Seq<char>) -> bool {
    forall|i: int| 0 <= i < s.len() ==> #[trigger] s[i] != '\n'
}

proof fn lemma_no_line_feed_concat(a: Seq<char>, b: Seq<char>)
    requires
        no_line_feed(a),
        no_line_feed(b),
    ensures
        no_line_feed(a + b),
{
    assert forall|i: int| 0 <= i < (a + b).len() implies #[trigger] (a + b)[i] != '\n' by {
        if i < a.len() {
            assert((a + b)[i] == a[i]);
        } else {
            assert((a + b)[i] == b[i - a.len()]);
        }
    }
}

proof fn lemma_decimal_no_line_feed(n: nat)
    ensures
        no_line_feed(decimal(n)),
        decimal(n).last() != '\r',
{
    lemma_decimal_plain(n);
}

/// Splitting `D(a) , rest` at its first comma.
proof fn lemma_split(a: u32, rest: Seq<char>)
    ensures
        comma_pos(decimal(a as nat) + seq![','] + rest) == decimal(a as nat).len(),
        (decimal(a as nat) + seq![','] + rest).take(decimal(a as nat).len() as int) == decimal(
            a as nat,
        ),
        (decimal(a as nat) + seq![','] + rest).skip(decimal(a as nat).len() + 1int) == rest,
        comma_pos(decimal(a as nat) + seq![','] + rest) < (decimal(a as nat) + seq![','] + rest).len(),
        num_field(decimal(a as nat)) == Some(a),
{
    let d = decimal(a as nat);
    assert(d + seq![','] + rest =~= d + (seq![','] + rest));
    lemma_numeral_field(a, seq![','] + rest);
    assert((d + seq![','] + rest).skip(d.len() + 1int) =~= rest);
}

/// A lone numeral, with no comma after it.
proof fn lemma_last_field(a: u32)
    ensures
        comma_pos(decimal(a as nat)) == decimal(a as nat).len(),
        num_field(decimal(a as nat)) == Some(a),
        taken_field(decimal(a as nat)) == Some(a),
{
    let d = decimal(a as nat);
    assert(d + Seq::<char>::empty() =~= d);
    lemma_numeral_field(a, Seq::<char>::empty());
}

/// What the round trip needs of a canonical body.
pub open spec fn body_round_trips(v: RecordView) -> bool {
    &&& parse_body(record_body(v)) == Some(v)
    &&& no_line_feed(record_body(v))
    &&& record_body(v).len() > 0
    &&& record_body(v).last() != '\r'
}

#[verifier::rlimit(80)]
proof fn lemma_body_text(v: RecordView)
    requires
        clean_record(v),
        v is TestName || v is SourceFile,
    ensures
        body_round_trips(v),
{
    let b = record_body(v);
    lemma_tag_prefixes(b);
    match v {
        RecordView::TestName(None) => {
            assert(b.skip(3) =~= Seq::<char>::empty());
        },
        RecordView::TestName(Some(n)) => {
            assert(b.skip(3) =~= n);
            lemma_no_line_feed_concat(tag_tn(), n);
        },
        RecordView::SourceFile(p) => {
            assert(b.skip(3) =~= p);
            lemma_no_line_feed_concat(tag_sf(), p);
        },
        _ => {},
    }
}

proof fn lemma_data_fields(l: u32, n: u32, x: Option<Seq<char>>)
    requires
        x is Some ==> clean_text(x->Some_0),
    ensures
        line_data_fields(data_payload(l, n, x)) == Some((l, n, x)),
        no_line_feed(data_payload(l, n, x)),
        data_payload(l, n, x).last() != '\r',
{
    let c = seq![','];
    assert(no_line_feed(c));
    lemma_decimal_no_line_feed(l as nat);
    lemma_decimal_no_line_feed(n as nat);
    match x {
        None => {
            lemma_split(l, decimal(n as nat));
            lemma_last_field(n);
            lemma_no_line_feed_concat(decimal(l as nat), c);
            lemma_no_line_feed_concat(decimal(l as nat) + c, decimal(n as nat));
        },
        Some(t) => {
            let r = decimal(n as nat) + c + t;
            lemma_split(l, r);
            lemma_split(n, t);
            lemma_no_line_feed_concat(decimal(n as nat), c);
            lemma_no_line_feed_concat(decimal(n as nat) + c, t);
            lemma_no_line_feed_concat(decimal(l as nat), c);
            lemma_no_line_feed_concat(decimal(l as nat) + c, r);
        },
    }
}

/// The payload of the canonical `DA` line.
pub open spec fn data_payload(l: u32, n: u32, x: Option<Seq<char>>) -> Seq<char> {
    let c = seq![','];
    match x {
        None => decimal(l as nat) + c + decimal(n as nat),
        Some(t) => decimal(l as nat) + c + (decimal(n as nat) + c + t),
    }
}

proof fn lemma_body_data(l: u32, n: u32, x: Option<Seq<char>>)
    requires
        x is Some ==> clean_text(x->Some_0),
    ensures
        body_round_trips(RecordView::Data(l, n, x)),
{
    let v = RecordView::Data(l, n, x);
    let b = record_body(v);
    let t = data_payload(l, n, x);
    assert(b =~= tag_da() + t);
    lemma_tag_prefixes(b);
    assert(b.skip(3) =~= t);
    lemma_data_fields(l, n, x);
    lemma_no_line_feed_concat(tag_da(), t);
}

#[verifier::rlimit(80)]
proof fn lemma_body_function(v: RecordView)
    requires
        clean_record(v),
        v is FunctionName || v is FunctionData,
    ensures
        body_round_trips(v),
{
    let b = record_body(v);
    let c = seq![','];
    lemma_tag_prefixes(b);
    match v {
        RecordView::FunctionName(l, x) => {
            let t = decimal(l as nat) + c + x;
            assert(b =~= tag_fn() + t);
            assert(b.skip(3) =~= t);
            lemma_split(l, x);
            lemma_decimal_no_line_feed(l as nat);
            lemma_no_line_feed_concat(decimal(l as nat), c);
            lemma_no_line_feed_concat(decimal(l as nat) + c, x);
            lemma_no_line_feed_concat(tag_fn(), t);
        },
        RecordView::FunctionData(l, x) => {
            let t = decimal(l as nat) + c + x;
            assert(b =~= tag_fnda() + t);
            assert(b.skip(5) =~= t);
            lemma_split(l, x);
            lemma_decimal_no_line_feed(l as nat);
            lemma_no_line_feed_concat(decimal(l as nat), c);
            lemma_no_line_feed_concat(decimal(l as nat) + c, x);
            lemma_no_line_feed_concat(tag_fnda(), t);
        },
        _ => {},
    }
}

/// The payload of the canonical `BRDA` line.
pub open spec fn branch_payload(l: u32, k: u32, r: u32, w: u32) -> Seq<char> {
    let c = seq![','];
    decimal(l as nat) + c + (decimal(k as nat) + c + (decimal(r as nat) + c + decimal(w as nat)))
}

proof fn lemma_branch_fields(l: u32, k: u32, r: u32, w: u32)
    ensures
        branch_fields(branch_payload(l, k, r, w)) == Some((l, k, r, w)),
{
    let c = seq![','];
    let r3 = decimal(w as nat);
    let r2 = decimal(r as nat) + c + r3;
    let r1 = decimal(k as nat) + c + r2;
    let t = decimal(l as nat) + c + r1;
    assert(t == branch_payload(l, k, r, w));
    lemma_split(l, r1);
    lemma_split(k, r2);
    lemma_split(r, r3);
    lemma_last_field(w);
}

proof fn lemma_branch_payload_clean(l: u32, k: u32, r: u32, w: u32)
    ensures
        no_line_feed(branch_payload(l, k, r, w)),
        branch_payload(l, k, r, w).last() != '\r',
{
    let c = seq![','];
    assert(no_line_feed(c));
    let r3 = decimal(w as nat);
    let r2 = decimal(r as nat) + c + r3;
    let r1 = decimal(k as nat) + c + r2;
    lemma_decimal_no_line_feed(l as nat);
    lemma_decimal_no_line_feed(k as nat);
    lemma_decimal_no_line_feed(r as nat);
    lemma_decimal_no_line_feed(w as nat);
    lemma_no_line_feed_concat(decimal(r as nat), c);
    lemma_no_line_feed_concat(decimal(r as nat) + c, r3);
    lemma_no_line_feed_concat(decimal(k as nat), c);
    lemma_no_line_feed_concat(decimal(k as nat) + c, r2);
    lemma_no_line_feed_concat(decimal(l as nat), c);
    lemma_no_line_feed_concat(decimal(l as nat) + c, r1);
    assert(branch_payload(l, k, r, w).last() == r3.last());
}

proof fn lemma_body_branch(l: u32, k: u32, r: u32, w: u32)
    ensures
        body_round_trips(RecordView::BranchData(l, k, r, w)),
{
    let v = RecordView::BranchData(l, k, r, w);
    let b = record_body(v);
    let t = branch_payload(l, k, r, w);
    assert(b =~= tag_brda() + t);
    lemma_tag_prefixes(b);
    assert(b.skip(5) =~= t);
    lemma_branch_fields(l, k, r, w);
    lemma_branch_payload_clean(l, k, r, w);
    lemma_no_line_feed_concat(tag_brda(), t);
}

#[verifier::rlimit(80)]
proof fn lemma_body_counter(v: RecordView)
    requires
        v is FunctionsFound || v is FunctionsHit || v is LinesHit || v is LinesFound
            || v is BranchesFound || v is BranchesHit,
    ensures
        body_round_trips(v),
{
    let b = record_body(v);
    lemma_tag_prefixes(b);
    let (tag, n) = match v {
        RecordView::FunctionsFound(n) => (tag_fnf(), n),
        RecordView::FunctionsHit(n) => (tag_fnh(), n),
        RecordView::LinesHit(n) => (tag_lh(), n),
        RecordView::LinesFound(n) => (tag_lf(), n),
        RecordView::BranchesFound(n) => (tag_brf(), n),
        RecordView::BranchesHit(n) => (tag_brh(), n),
        _ => (tag_brh(), 0u32),
    };
    assert(b =~= tag + decimal(n as nat));
    assert(b.skip(tag.len() as int) =~= decimal(n as nat));
    lemma_last_field(n);
    lemma_decimal_no_line_feed(n as nat);
    lemma_no_line_feed_concat(tag, decimal(n as nat));
}

/// Parsing the canonical line of a record with clean text fields gives back
/// the record.
#[verifier::rlimit(50)]
pub proof fn lemma_parse_record_line(v: RecordView)
    requires
        clean_record(v),
    ensures
        parse_line_spec(record_line(v)) == Some(v),
{
    match v {
        RecordView::TestName(_) => lemma_body_text(v),
        RecordView::SourceFile(_) => lemma_body_text(v),
        RecordView::Data(l, n, x) => lemma_body_data(l, n, x),
        RecordView::FunctionName(..) => lemma_body_function(v),
        RecordView::FunctionData(..) => lemma_body_function(v),
        RecordView::BranchData(l, k, r, w) => lemma_body_branch(l, k, r, w),
        RecordView::EndOfRecord => {
            let b = record_body(v);
            assert(no_line_feed(b));
        },
        _ => lemma_body_counter(v),
    }
    lemma_line_of_body(record_body(v));
}

/// Every non-empty suffix of a clean body is clean.
proof fn lemma_suffix_clean(b: Seq<char>, j: int)
    requires
        no_line_feed(b),
        b.len() == 0 || b.last() != '\r',
        0 <= j < b.len(),
    ensures
        clean_text(b.skip(j)),
{
    let t = b.skip(j);
    assert(t.last() == b.last());
    assert forall|i: int| 0 <= i < t.len() implies #[trigger] t[i] != '\n' by {
        assert(t[i] == b[i + j]);
    }
}

/// The body of a terminated line has no line feed and does not end with a
/// carriage return.
proof fn lemma_strip_cr(s: Seq<char>)
    requires
        no_line_feed(s),
    ensures
        no_line_feed(strip_cr(s)),
        strip_cr(s).len() == 0 || strip_cr(s).last() != '\r',
    decreases s.len(),
{
    if s.len() > 0 && s.last() == '\r' {
        assert forall|i: int| 0 <= i < s.drop_last().len() implies #[trigger] s.drop_last()[i] != '\n' by {
            assert(s.drop_last()[i] == s[i]);
        }
        lemma_strip_cr(s.drop_last());
    }
}

proof fn lemma_comma_pos_bounds(t: Seq<char>)
    ensures
        0 <= comma_pos(t) <= t.len(),
    decreases t.len(),
{
    if t.len() > 0 && t[0] != ',' {
        lemma_comma_pos_bounds(t.drop_first());
    }
}

proof fn lemma_num_text_suffix(b: Seq<char>, p: int) -> (j: int)
    requires
        0 <= p <= b.len(),
        num_text(b.skip(p)) is Some,
    ensures
        p <= j < b.len(),
        num_text(b.skip(p))->Some_0.1 == b.skip(j),
{
    let t = b.skip(p);
    let k = comma_pos(t);
    lemma_comma_pos_bounds(t);
    assert(t.skip(k + 1) =~= b.skip(p + k + 1));
    p + k + 1
}

proof fn lemma_line_data_suffix(b: Seq<char>, p: int) -> (j: int)
    requires
        0 <= p <= b.len(),
        line_data_fields(b.skip(p)) is Some,
        line_data_fields(b.skip(p))->Some_0.2 is Some,
    ensures
        p <= j < b.len(),
        line_data_fields(b.skip(p))->Some_0.2->Some_0 == b.skip(j),
{
    let t = b.skip(p);
    let k = comma_pos(t);
    lemma_comma_pos_bounds(t);
    let rest = t.skip(k + 1);
    let k2 = comma_pos(rest);
    lemma_comma_pos_bounds(rest);
    assert(rest =~= b.skip(p + k + 1));
    assert(rest.skip(k2 + 1) =~= b.skip(p + k + 1 + k2 + 1));
    p + k + 1 + k2 + 1
}

/// The text fields of a parsed line are clean.
#[verifier::rlimit(80)]
proof fn lemma_parsed_clean(line: Seq<char>)
    requires
        parse_line_spec(line) is Some,
    ensures
        clean_record(parse_line_spec(line)->Some_0),
{
    let b = strip_cr(line.drop_last());
    assert(no_line_feed(line.drop_last())) by {
        assert forall|i: int| 0 <= i < line.drop_last().len() implies #[trigger] line.drop_last()[i] != '\n' by {
            assert(line.drop_last()[i] == line[i]);
        }
    }
    lemma_strip_cr(line.drop_last());
    lemma_tag_prefixes(b);
    let v = parse_body(b)->Some_0;
    match v {
        RecordView::TestName(Some(n)) => {
            lemma_suffix_clean(b, 3);
        },
        RecordView::SourceFile(p) => {
            lemma_suffix_clean(b, 3);
        },
        RecordView::FunctionName(_, x) => {
            let j = lemma_num_text_suffix(b, 3);
            lemma_suffix_clean(b, j);
        },
        RecordView::FunctionData(_, x) => {
            let j = lemma_num_text_suffix(b, 5);
            lemma_suffix_clean(b, j);
        },
        RecordView::Data(_, _, Some(x)) => {
            let j = lemma_line_data_suffix(b, 3);
            lemma_suffix_clean(b, j);
        },
        _ => {},
    }
}

/// Round trip of the record model: the record that a valid line denotes,
/// written back as its canonical line, parses to the same record.
pub proof fn lemma_round_trip(line: Seq<char>)
    requires
        parse_line_spec(line) is Some,
    ensures
        parse_line_spec(record_line(parse_line_spec(line)->Some_0)) == parse_line_spec(line),
{
    lemma_parsed_clean(line);
    lemma_parse_record_line(parse_line_spec(line)->Some_0);
}

} // verus!
