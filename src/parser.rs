//! Parsing of trace-file text: one line into one record, a whole text at
//! once, or line by line with [`LCOVParser`].

use vstd::prelude::*;
use crate::grammar::{
    branch_fields, comma_pos, end_of_record_text, error_column, first_line_len, has_prefix,
    is_terminated_line, lemma_first_line_len, lemma_first_line_len_at, line_data_fields,
    num_text, parse_body, parse_line_spec, parse_text_spec, payload, strip_cr, tag_brda, tag_brf,
    tag_brh, tag_da, tag_fn, tag_fnda, tag_fnf, tag_fnh, tag_len, tag_lf, tag_lh, tag_sf, tag_tn,
    taken_field, text_field,
};
use crate::record::{BranchData, FunctionData, FunctionName, LCOVRecord, LineData, RecordView};
use crate::text::{chars_of, parse_u32, string_of};

verus! {

/// Why a line could not be read as a record.
#[derive(PartialEq, Debug)]
pub struct RecordParseError {
    /// 1-based number of the offending line.
    pub line: u32,
    /// 1-based column where reading the line stopped.
    pub column: u32,
    /// The text of the offending line.
    pub message: String,
}

/// `std::io::Error`, carried through as an opaque value; nothing is assumed
/// of its contents.
#[verifier::external_type_specification]
#[verifier::external_body]
pub struct ExIoError(std::io::Error);

/// An error while reading a trace: from the source, or from the grammar.
#[derive(Debug)]
pub enum ParseError {
    IOError(std::io::Error),
    RecordParseError(RecordParseError),
}

/// Index just past the first comma-free run of `chars[from..to]`.
fn find_comma(chars: &Vec<char>, from: usize, to: usize) -> (k: usize)
    requires
        from <= to <= chars@.len(),
    ensures
        from <= k <= to,
        k - from == comma_pos(chars@.subrange(from as int, to as int)),
{
    let mut i = from;
    while i < to && chars[i] != ','
        invariant
            from <= i <= to <= chars@.len(),
            comma_pos(chars@.subrange(from as int, to as int)) == (i - from) + comma_pos(
                chars@.subrange(i as int, to as int),
            ),
        decreases to - i,
    {
        assert(chars@.subrange(i as int, to as int).drop_first() =~= chars@.subrange(
            i + 1,
            to as int,
        ));
        i = i + 1;
    }
    i
}

/// Does `chars[from..to]` start with `tag`?
fn has_tag(chars: &Vec<char>, from: usize, to: usize, tag: &Vec<char>) -> (r: bool)
    requires
        from <= to <= chars@.len(),
    ensures
        r == has_prefix(chars@.subrange(from as int, to as int), tag@),
{
    let ghost b = chars@.subrange(from as int, to as int);
    if tag.len() > to - from {
        return false;
    }
    let mut i: usize = 0;
    while i < tag.len()
        invariant
            from <= to <= chars@.len(),
            b == chars@.subrange(from as int, to as int),
            tag@.len() <= b.len(),
            i <= tag@.len(),
            forall|j: int| 0 <= j < i ==> b[j] == tag@[j],
        decreases tag.len() - i,
    {
        if chars[from + i] != tag[i] {
            assert(b.take(tag@.len() as int)[i as int] != tag@[i as int]);
            return false;
        }
        i = i + 1;
    }
    assert(b.take(tag@.len() as int) =~= tag@);
    true
}

/// Reads `chars[from..to]` as a free-text field: any non-empty text.
fn text_field_exec(chars: &Vec<char>, from: usize, to: usize) -> (r: Option<String>)
    requires
        from <= to <= chars@.len(),
    ensures
        match text_field(chars@.subrange(from as int, to as int)) {
            Some(t) => r is Some && r->Some_0@ == t,
            None => r is None,
        },
{
    if from < to {
        Some(string_of(chars, from, to))
    } else {
        None
    }
}

/// Reads `<number>,<text>` from `chars[from..to]`.
fn num_text_exec(chars: &Vec<char>, from: usize, to: usize) -> (r: Option<(u32, String)>)
    requires
        from <= to <= chars@.len(),
    ensures
        match num_text(chars@.subrange(from as int, to as int)) {
            Some((n, x)) => r is Some && r->Some_0.0 == n && r->Some_0.1@ == x,
            None => r is None,
        },
{
    let ghost t = chars@.subrange(from as int, to as int);
    let k = find_comma(chars, from, to);
    if k == to {
        return None;
    }
    assert(t.take(k - from) =~= chars@.subrange(from as int, k as int));
    assert(t.skip(k - from + 1) =~= chars@.subrange(k + 1, to as int));
    let n = parse_u32(chars, from, k);
    let x = text_field_exec(chars, k + 1, to);
    match (n, x) {
        (Some(n), Some(x)) => Some((n, x)),
        _ => None,
    }
}

/// Reads `<line>,<count>[,<checksum>]` from `chars[from..to]`.
fn line_data_exec(chars: &Vec<char>, from: usize, to: usize) -> (r: Option<LineData>)
    requires
        from <= to <= chars@.len(),
    ensures
        match line_data_fields(chars@.subrange(from as int, to as int)) {
            Some((l, c, x)) => r is Some && r->Some_0.line == l && r->Some_0.count == c
                && crate::record::opt_text(r->Some_0.checksum) == x,
            None => r is None,
        },
{
    let ghost t = chars@.subrange(from as int, to as int);
    let k = find_comma(chars, from, to);
    if k == to {
        return None;
    }
    let ghost rest = t.skip(k - from + 1);
    assert(t.take(k - from) =~= chars@.subrange(from as int, k as int));
    assert(rest =~= chars@.subrange(k + 1, to as int));
    let k2 = find_comma(chars, k + 1, to);
    let line = parse_u32(chars, from, k);
    if k2 < to {
        assert(rest.take(k2 - k - 1) =~= chars@.subrange(k + 1, k2 as int));
        assert(rest.skip(k2 - k) =~= chars@.subrange(k2 + 1, to as int));
        let count = parse_u32(chars, k + 1, k2);
        let sum = text_field_exec(chars, k2 + 1, to);
        match (line, count, sum) {
            (Some(l), Some(c), Some(x)) => Some(LineData { line: l, count: c, checksum: Some(x) }),
            _ => None,
        }
    } else {
        let count = parse_u32(chars, k + 1, to);
        match (line, count) {
            (Some(l), Some(c)) => Some(LineData { line: l, count: c, checksum: None }),
            _ => None,
        }
    }
}

/// Reads the `<taken>` field of branch data from `chars[from..to]`.
fn taken_exec(chars: &Vec<char>, from: usize, to: usize) -> (r: Option<u32>)
    requires
        from <= to <= chars@.len(),
    ensures
        r == taken_field(chars@.subrange(from as int, to as int)),
{
    if to - from == 1 && chars[from] == '-' {
        assert(chars@.subrange(from as int, to as int) =~= seq!['-']);
        Some(0)
    } else {
        assert(chars@.subrange(from as int, to as int) != seq!['-']);
        parse_u32(chars, from, to)
    }
}

/// Reads `<line>,<block>,<branch>,<taken>` from `chars[from..to]`.
fn branch_exec(chars: &Vec<char>, from: usize, to: usize) -> (r: Option<BranchData>)
    requires
        from <= to <= chars@.len(),
    ensures
        match branch_fields(chars@.subrange(from as int, to as int)) {
            Some((l, b, c, d)) => r == Some(BranchData { line: l, block: b, branch: c, taken: d }),
            None => r is None,
        },
{
    let ghost t = chars@.subrange(from as int, to as int);
    let k1 = find_comma(chars, from, to);
    if k1 == to {
        return None;
    }
    let ghost r1 = t.skip(k1 - from + 1);
    assert(r1 =~= chars@.subrange(k1 + 1, to as int));
    let k2 = find_comma(chars, k1 + 1, to);
    if k2 == to {
        return None;
    }
    let ghost r2 = r1.skip(k2 - k1);
    assert(r2 =~= chars@.subrange(k2 + 1, to as int));
    let k3 = find_comma(chars, k2 + 1, to);
    if k3 == to {
        return None;
    }
    assert(r2.skip(k3 - k2) =~= chars@.subrange(k3 + 1, to as int));
    assert(t.take(k1 - from) =~= chars@.subrange(from as int, k1 as int));
    assert(r1.take(k2 - k1 - 1) =~= chars@.subrange(k1 + 1, k2 as int));
    assert(r2.take(k3 - k2 - 1) =~= chars@.subrange(k2 + 1, k3 as int));
    let a = parse_u32(chars, from, k1);
    let b = parse_u32(chars, k1 + 1, k2);
    let c = parse_u32(chars, k2 + 1, k3);
    let d = taken_exec(chars, k3 + 1, to);
    match (a, b, c, d) {
        (Some(a), Some(b), Some(c), Some(d)) => Some(
            BranchData { line: a, block: b, branch: c, taken: d },
        ),
        _ => None,
    }
}

/// Where the payload after `tag` starts, when `chars[from..to]` starts with it.
fn tag_payload(chars: &Vec<char>, from: usize, to: usize, tag: &Vec<char>) -> (r: Option<usize>)
    requires
        from <= to <= chars@.len(),
    ensures
        has_prefix(chars@.subrange(from as int, to as int), tag@) <==> r is Some,
        r is Some ==> from <= r->Some_0 <= to && r->Some_0 == from + tag@.len()
            && payload(chars@.subrange(from as int, to as int), tag@) == chars@.subrange(
            r->Some_0 as int,
            to as int,
        ),
{
    if has_tag(chars, from, to, tag) {
        assert(payload(chars@.subrange(from as int, to as int), tag@) =~= chars@.subrange(
            from + tag@.len(),
            to as int,
        ));
        Some(from + tag.len())
    } else {
        None
    }
}

/// A body that starts with no tag has tag length 0.
proof fn lemma_tag_len_none(b: Seq<char>)
    requires
        !has_prefix(b, tag_tn()),
        !has_prefix(b, tag_sf()),
        !has_prefix(b, tag_fn()),
        !has_prefix(b, tag_fnda()),
        !has_prefix(b, tag_fnf()),
        !has_prefix(b, tag_fnh()),
        !has_prefix(b, tag_da()),
        !has_prefix(b, tag_lf()),
        !has_prefix(b, tag_lh()),
        !has_prefix(b, tag_brda()),
        !has_prefix(b, tag_brf()),
        !has_prefix(b, tag_brh()),
    ensures
        tag_len(b) == 0,
{
}

/// Reads the body of one line (its text before the line break) as a record.
/// On failure, the 1-based column where the record's fields begin, or 1 when
/// no record type matches.
#[verifier::rlimit(40)]
fn parse_body_exec(chars: &Vec<char>, from: usize, to: usize) -> (r: Result<LCOVRecord, usize>)
    requires
        from <= to <= chars@.len(),
    ensures
        match parse_body(chars@.subrange(from as int, to as int)) {
            Some(v) => r is Ok && r->Ok_0@ == v,
            None => r is Err && r->Err_0 == tag_len(chars@.subrange(from as int, to as int)) + 1,
        },
{
    let ghost b = chars@.subrange(from as int, to as int);
    let eor = vec!['e', 'n', 'd', '_', 'o', 'f', '_', 'r', 'e', 'c', 'o', 'r', 'd'];
    assert(eor@ =~= end_of_record_text());
    if to - from == eor.len() && has_tag(chars, from, to, &eor) {
        assert(b =~= b.take(13));
        return Ok(LCOVRecord::EndOfRecord);
    }
    assert(b != end_of_record_text()) by {
        if b == end_of_record_text() {
            assert(b.take(13) =~= b);
        }
    }
    let tag = vec!['T', 'N', ':'];
    assert(tag@ =~= tag_tn());
    if let Some(p) = tag_payload(chars, from, to, &tag) {
        return Ok(LCOVRecord::TestName(text_field_exec(chars, p, to)));
    }
    let tag = vec!['S', 'F', ':'];
    assert(tag@ =~= tag_sf());
    if let Some(p) = tag_payload(chars, from, to, &tag) {
        return match text_field_exec(chars, p, to) {
            Some(t) => Ok(LCOVRecord::SourceFile(t)),
            None => Err(p - from + 1),
        };
    }
    let tag = vec!['F', 'N', ':'];
    assert(tag@ =~= tag_fn());
    if let Some(p) = tag_payload(chars, from, to, &tag) {
        return match num_text_exec(chars, p, to) {
            Some((n, x)) => Ok(LCOVRecord::FunctionName(FunctionName { name: x, line: n })),
            None => Err(p - from + 1),
        };
    }
    let tag = vec!['F', 'N', 'D', 'A', ':'];
    assert(tag@ =~= tag_fnda());
    if let Some(p) = tag_payload(chars, from, to, &tag) {
        return match num_text_exec(chars, p, to) {
            Some((n, x)) => Ok(LCOVRecord::FunctionData(FunctionData { name: x, count: n })),
            None => Err(p - from + 1),
        };
    }
    let tag = vec!['F', 'N', 'F', ':'];
    assert(tag@ =~= tag_fnf());
    if let Some(p) = tag_payload(chars, from, to, &tag) {
        return match parse_u32(chars, p, to) {
            Some(n) => Ok(LCOVRecord::FunctionsFound(n)),
            None => Err(p - from + 1),
        };
    }
    let tag = vec!['F', 'N', 'H', ':'];
    assert(tag@ =~= tag_fnh());
    if let Some(p) = tag_payload(chars, from, to, &tag) {
        return match parse_u32(chars, p, to) {
            Some(n) => Ok(LCOVRecord::FunctionsHit(n)),
            None => Err(p - from + 1),
        };
    }
    let tag = vec!['D', 'A', ':'];
    assert(tag@ =~= tag_da());
    if let Some(p) = tag_payload(chars, from, to, &tag) {
        return match line_data_exec(chars, p, to) {
            Some(d) => Ok(LCOVRecord::Data(d)),
            None => Err(p - from + 1),
        };
    }
    let tag = vec!['L', 'F', ':'];
    assert(tag@ =~= tag_lf());
    if let Some(p) = tag_payload(chars, from, to, &tag) {
        return match parse_u32(chars, p, to) {
            Some(n) => Ok(LCOVRecord::LinesFound(n)),
            None => Err(p - from + 1),
        };
    }
    let tag = vec!['L', 'H', ':'];
    assert(tag@ =~= tag_lh());
    if let Some(p) = tag_payload(chars, from, to, &tag) {
        return match parse_u32(chars, p, to) {
            Some(n) => Ok(LCOVRecord::LinesHit(n)),
            None => Err(p - from + 1),
        };
    }
    let tag = vec!['B', 'R', 'D', 'A', ':'];
    assert(tag@ =~= tag_brda());
    if let Some(p) = tag_payload(chars, from, to, &tag) {
        return match branch_exec(chars, p, to) {
            Some(d) => Ok(LCOVRecord::BranchData(d)),
            None => Err(p - from + 1),
        };
    }
    let tag = vec!['B', 'R', 'F', ':'];
    assert(tag@ =~= tag_brf());
    if let Some(p) = tag_payload(chars, from, to, &tag) {
        return match parse_u32(chars, p, to) {
            Some(n) => Ok(LCOVRecord::BranchesFound(n)),
            None => Err(p - from + 1),
        };
    }
    let tag = vec!['B', 'R', 'H', ':'];
    assert(tag@ =~= tag_brh());
    if let Some(p) = tag_payload(chars, from, to, &tag) {
        return match parse_u32(chars, p, to) {
            Some(n) => Ok(LCOVRecord::BranchesHit(n)),
            None => Err(p - from + 1),
        };
    }
    proof {
        lemma_tag_len_none(b);
    }
    Err(1)
}

/// Reads the line `chars[from..to]`, its terminator included, as a record.
/// On failure, the 1-based column where reading stopped.
fn parse_line_exec(chars: &Vec<char>, from: usize, to: usize) -> (r: Result<LCOVRecord, usize>)
    requires
        from <= to <= chars@.len(),
    ensures
        match parse_line_spec(chars@.subrange(from as int, to as int)) {
            Some(v) => r is Ok && r->Ok_0@ == v,
            None => r is Err && sat_u32(r->Err_0 as int) == sat_u32(
                error_column(chars@.subrange(from as int, to as int)),
            ),
        },
{
    let ghost line = chars@.subrange(from as int, to as int);
    if from == to || chars[to - 1] != '\n' {
        let n = to - from;
        return Err(if n < usize::MAX { n + 1 } else { n });
    }
    let last = to - 1;
    let mut i = from;
    assert(line.len() > 0 && line.last() == '\n');
    while i < last
        invariant
            from <= i <= last < to <= chars@.len(),
            line == chars@.subrange(from as int, to as int),
            line.len() > 0 && line.last() == '\n',
            forall|j: int| 0 <= j < i - from ==> #[trigger] line[j] != '\n',
        decreases last - i,
    {
        if chars[i] == '\n' {
            assert(line[i - from] == '\n');
            proof {
                lemma_first_line_len_at(line, i - from);
                assert(!is_terminated_line(line));
                assert(line.last() == '\n');
            }
            return Err(i - from + 1);
        }
        i = i + 1;
    }
    assert(is_terminated_line(line));
    let mut e = last;
    assert(line.drop_last() =~= chars@.subrange(from as int, last as int));
    while e > from && chars[e - 1] == '\r'
        invariant
            from <= e <= last < to <= chars@.len(),
            line.len() > 0,
            strip_cr(line.drop_last()) == strip_cr(chars@.subrange(from as int, e as int)),
        decreases e - from,
    {
        assert(chars@.subrange(from as int, e as int).drop_last() =~= chars@.subrange(
            from as int,
            e - 1,
        ));
        e = e - 1;
    }
    assert(strip_cr(chars@.subrange(from as int, e as int)) == chars@.subrange(
        from as int,
        e as int,
    ));
    parse_body_exec(chars, from, e)
}


/// `n`, held at `u32::MAX` when it does not fit.
pub open spec fn sat_u32(n: int) -> u32 {
    if n > u32::MAX {
        u32::MAX
    } else if n < 0 {
        0
    } else {
        n as u32
    }
}

fn column_u32(c: usize) -> (r: u32)
    ensures
        r == sat_u32(c as int),
{
    if c > u32::MAX as usize {
        u32::MAX
    } else {
        c as u32
    }
}

/// Index just past the first line of `chars[from..]`.
fn find_line_end(chars: &Vec<char>, from: usize) -> (end: usize)
    requires
        from < chars@.len(),
    ensures
        from < end <= chars@.len(),
        end - from == first_line_len(chars@.skip(from as int)),
{
    let mut i = from;
    while i < chars.len() && chars[i] != '\n'
        invariant
            from <= i <= chars@.len(),
            first_line_len(chars@.skip(from as int)) == (i - from) + first_line_len(
                chars@.skip(i as int),
            ),
        decreases chars@.len() - i,
    {
        assert(chars@.skip(i as int).drop_first() =~= chars@.skip(i + 1));
        i = i + 1;
    }
    if i < chars.len() {
        i + 1
    } else {
        assert(chars@.skip(i as int).len() == 0);
        i
    }
}

/// Parses one line of a trace file, its line break included, into a record.
pub fn parse_record(input: &str) -> (r: Result<LCOVRecord, RecordParseError>)
    ensures
        match parse_line_spec(input@) {
            Some(v) => r is Ok && r->Ok_0@ == v,
            None => r is Err && r->Err_0.line == 1 && r->Err_0.column == sat_u32(
                error_column(input@),
            ) && r->Err_0.message@ == input@,
        },
{
    let chars = chars_of(input);
    assert(chars@.subrange(0, chars@.len() as int) =~= chars@);
    match parse_line_exec(&chars, 0, chars.len()) {
        Ok(record) => Ok(record),
        Err(col) => Err(
            RecordParseError {
                line: 1,
                column: column_u32(col),
                message: string_of(&chars, 0, chars.len()),
            },
        ),
    }
}

/// The views of a sequence of records.
pub open spec fn record_views(rs: Seq<LCOVRecord>) -> Seq<RecordView> {
    rs.map_values(|r: LCOVRecord| r@)
}

/// Parses a whole trace text, line by line; the first line that breaks the
/// grammar fails the whole parse.
pub fn parse_report(input: &str) -> (r: Result<Vec<LCOVRecord>, RecordParseError>)
    ensures
        match parse_text_spec(input@) {
            Ok(vs) => r is Ok && record_views(r->Ok_0@) == vs,
            Err((k, c, t)) => r is Err && r->Err_0.line == sat_u32(k as int) && r->Err_0.column
                == sat_u32(c) && r->Err_0.message@ == t,
        },
{
    let mut parser = LCOVParser::new(input);
    match parser.parse() {
        Ok(records) => Ok(records),
        Err(ParseError::RecordParseError(e)) => Err(e),
        Err(ParseError::IOError(_)) => {
            assert(false);
            Err(RecordParseError { line: 0, column: 0, message: String::new() })
        },
    }
}

/// Reads records one line at a time from a text held in memory.
pub struct LCOVParser {
    line: u32,
    chars: Vec<char>,
    pos: usize,
}

impl LCOVParser {
    /// The text that is still to be read.
    pub closed spec fn rest(&self) -> Seq<char> {
        if self.pos <= self.chars@.len() {
            self.chars@.skip(self.pos as int)
        } else {
            Seq::empty()
        }
    }

    /// How many lines have been read, held at `u32::MAX`.
    pub closed spec fn lines_read(&self) -> u32 {
        self.line
    }

    /// A parser at the start of `input`.
    pub fn new(input: &str) -> (p: LCOVParser)
        ensures
            p.rest() == input@,
            p.lines_read() == 0,
    {
        let chars = chars_of(input);
        assert(chars@.skip(0) =~= chars@);
        LCOVParser { line: 0, chars, pos: 0 }
    }

    /// Reads the next line as a record; `None` once the text is used up.
    /// The line is consumed whether or not it parses.
    #[verifier::rlimit(50)]
    pub fn next(&mut self) -> (r: Result<Option<LCOVRecord>, ParseError>)
        ensures
            old(self).rest().len() == 0 ==> (r matches Ok(None)) && final(self).rest() == old(
                self,
            ).rest() && final(self).lines_read() == old(self).lines_read(),
            old(self).rest().len() > 0 ==> ({
                let s = old(self).rest();
                let n = first_line_len(s);
                &&& final(self).lines_read() == sat_u32(old(self).lines_read() + 1)
                &&& final(self).rest() == s.skip(n)
                &&& match parse_line_spec(s.take(n)) {
                    Some(v) => r is Ok && r->Ok_0 is Some && r->Ok_0->Some_0@ == v,
                    None => r is Err && r->Err_0 is RecordParseError
                        && r->Err_0->RecordParseError_0.line == final(self).lines_read()
                        && r->Err_0->RecordParseError_0.column == sat_u32(error_column(s.take(n)))
                        && r->Err_0->RecordParseError_0.message@ == s.take(n),
                }
            }),
    {
        if self.pos >= self.chars.len() {
            return Ok(None);
        }
        let ghost s = self.rest();
        let start = self.pos;
        let end = find_line_end(&self.chars, start);
        assert(self.chars@.subrange(start as int, end as int) =~= s.take(end - start));
        assert(self.chars@.skip(end as int) =~= s.skip(end - start));
        if self.line < u32::MAX {
            self.line = self.line + 1;
        }
        self.pos = end;
        match parse_line_exec(&self.chars, start, end) {
            Ok(record) => Ok(Some(record)),
            Err(col) => Err(
                ParseError::RecordParseError(
                    RecordParseError {
                        line: self.line,
                        column: column_u32(col),
                        message: string_of(&self.chars, start, end),
                    },
                ),
            ),
        }
    }

    /// Reads all the remaining records; the first line that breaks the
    /// grammar fails the whole read.
    #[verifier::rlimit(50)]
    pub fn parse(&mut self) -> (r: Result<Vec<LCOVRecord>, ParseError>)
        ensures
            match parse_text_spec(old(self).rest()) {
                Ok(vs) => r is Ok && record_views(r->Ok_0@) == vs,
                Err((k, c, t)) => r is Err && r->Err_0 is RecordParseError
                    && r->Err_0->RecordParseError_0.line == sat_u32(old(self).lines_read() + k)
                    && r->Err_0->RecordParseError_0.column == sat_u32(c)
                    && r->Err_0->RecordParseError_0.message@ == t,
            },
    {
        let ghost s0 = self.rest();
        let ghost l0 = self.lines_read();
        let mut records: Vec<LCOVRecord> = Vec::new();
        loop
            invariant
                s0 == old(self).rest(),
                l0 == old(self).lines_read(),
                self.lines_read() == sat_u32(l0 + records@.len()),
                match parse_text_spec(self.rest()) {
                    Ok(vs) => parse_text_spec(s0) == Ok::<Seq<RecordView>, (nat, int, Seq<char>)>(
                        record_views(records@) + vs,
                    ),
                    Err((k, c, t)) => parse_text_spec(s0) == Err::<Seq<RecordView>, (nat, int, Seq<char>)>(
                        (k + records@.len(), c, t),
                    ),
                },
            decreases self.rest().len(),
        {
            let ghost s = self.rest();
            proof {
                lemma_first_line_len(s);
            }
            let result = self.next();
            match result {
                Ok(Some(record)) => {
                    let ghost before = records@;
                    records.push(record);
                    assert(record_views(records@) =~= record_views(before) + seq![record@]);
                    assert(record_views(before) + seq![record@] + parse_text_spec(
                        self.rest(),
                    )->Ok_0 =~= record_views(before) + (seq![record@] + parse_text_spec(
                        self.rest(),
                    )->Ok_0)) by {
                        if parse_text_spec(self.rest()) is Ok {
                        }
                    };
                },
                Ok(None) => {
                    assert(s.len() == 0);
                    assert(parse_text_spec(s) == Ok::<Seq<RecordView>, (nat, int, Seq<char>)>(Seq::empty()));
                    assert(record_views(records@) + Seq::<RecordView>::empty() =~= record_views(records@));
                    return Ok(records);
                },
                Err(e) => {
                    assert(s.len() > 0);
                    assert(parse_line_spec(s.take(first_line_len(s))) is None);
                    assert(parse_text_spec(s) == Err::<Seq<RecordView>, (nat, int, Seq<char>)>((1, error_column(s.take(first_line_len(s))), s.take(first_line_len(s)))));
                    return Err(e);
                },
            }
        }
    }
}

} // verus!
