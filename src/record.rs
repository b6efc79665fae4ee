use vstd::prelude::*;

verus! {

/// One line of a move section, as read.
#[derive(Clone, Debug)]
pub enum MoveRecord {
    /// A line whose move-number column holds an integer.
    Recorded { source_move_number: i32, raw_text: String },
    /// A line whose move-number column does not hold an integer, or which is
    /// too short to have one.
    Unrecognized { raw_text: String },
}

/// What a `MoveRecord` holds, as mathematical values.
pub enum RecordModel {
    Recorded { number: int, text: Seq<char> },
    Unrecognized { text: Seq<char> },
}

impl View for MoveRecord {
    type V = RecordModel;

    open spec fn view(&self) -> RecordModel {
        match self {
            MoveRecord::Recorded { source_move_number, raw_text } => RecordModel::Recorded {
                number: *source_move_number as int,
                text: raw_text@,
            },
            MoveRecord::Unrecognized { raw_text } => RecordModel::Unrecognized { text: raw_text@ },
        }
    }
}

/// Text shown for a record: the line itself, or `NoMove`.
pub open spec fn display_text_of(r: RecordModel) -> Seq<char> {
    match r {
        RecordModel::Recorded { text, .. } => text,
        RecordModel::Unrecognized { .. } => seq!['N', 'o', 'M', 'o', 'v', 'e'],
    }
}

impl MoveRecord {
    /// The text shown for this record: the recorded line, or `NoMove`.
    pub fn display_text(&self) -> (r: String)
        ensures
            r@ == display_text_of(self@),
    {
        match self {
            MoveRecord::Recorded { raw_text, .. } => raw_text.clone(),
            MoveRecord::Unrecognized { .. } => {
                let s = String::from_str("NoMove");
                proof {
                    reveal_strlit("NoMove");
                }
                assert(s@ =~= seq!['N', 'o', 'M', 'o', 'v', 'e']);
                s
            },
        }
    }

    /// The move number read from the line, if it was recognized.
    pub fn move_number(&self) -> (r: Option<i32>)
        ensures
            match self@ {
                RecordModel::Recorded { number, .. } => r == Some(number as i32),
                RecordModel::Unrecognized { .. } => r is None,
            },
    {
        match self {
            MoveRecord::Recorded { source_move_number, .. } => Some(*source_move_number),
            MoveRecord::Unrecognized { .. } => None,
        }
    }

    pub fn is_recorded(&self) -> (r: bool)
        ensures
            r == (self@ is Recorded),
    {
        match self {
            MoveRecord::Recorded { .. } => true,
            MoveRecord::Unrecognized { .. } => false,
        }
    }
}

/// Unicode white space, as `char::is_whitespace` and `str::trim` take it.
pub open spec fn is_white(c: char) -> bool {
    ||| '\t' <= c <= '\r'
    ||| c == ' '
    ||| c == '\u{85}'
    ||| c == '\u{a0}'
    ||| c == '\u{1680}'
    ||| '\u{2000}' <= c <= '\u{200a}'
    ||| c == '\u{2028}'
    ||| c == '\u{2029}'
    ||| c == '\u{202f}'
    ||| c == '\u{205f}'
    ||| c == '\u{3000}'
}

pub fn is_white_char(c: char) -> (r: bool)
    ensures
        r == is_white(c),
{
    ('\t' <= c && c <= '\r') || c == ' ' || c == '\u{85}' || c == '\u{a0}' || c == '\u{1680}'
        || ('\u{2000}' <= c && c <= '\u{200a}') || c == '\u{2028}' || c == '\u{2029}' || c
        == '\u{202f}' || c == '\u{205f}' || c == '\u{3000}'
}

/// `s` without its leading white space.
pub open spec fn trim_start(s: Seq<char>) -> Seq<char>
    decreases s.len(),
{
    if s.len() > 0 && is_white(s[0]) {
        trim_start(s.drop_first())
    } else {
        s
    }
}

/// `s` without its trailing white space.
pub open spec fn trim_end(s: Seq<char>) -> Seq<char>
    decreases s.len(),
{
    if s.len() > 0 && is_white(s.last()) {
        trim_end(s.drop_last())
    } else {
        s
    }
}

/// `s` without white space at either end.
pub open spec fn trim(s: Seq<char>) -> Seq<char> {
    trim_end(trim_start(s))
}

pub open spec fn is_digit(c: char) -> bool {
    '0' <= c <= '9'
}

pub open spec fn all_digits(s: Seq<char>) -> bool {
    forall|i: int| 0 <= i < s.len() ==> is_digit(#[trigger] s[i])
}

/// The value of a string of decimal digits.
pub open spec fn digits_value(s: Seq<char>) -> int
    decreases s.len(),
{
    if s.len() == 0 {
        0
    } else {
        digits_value(s.drop_last()) * 10 + (s.last() as int - '0' as int)
    }
}

/// The integer that `s` spells: an optional sign and at least one decimal
/// digit, nothing else.
pub open spec fn integer_text_value(s: Seq<char>) -> Option<int> {
    if s.len() > 0 && (s[0] == '+' || s[0] == '-') {
        let d = s.drop_first();
        if d.len() > 0 && all_digits(d) {
            Some(
                if s[0] == '-' {
                    -digits_value(d)
                } else {
                    digits_value(d)
                },
            )
        } else {
            None
        }
    } else if s.len() > 0 && all_digits(s) {
        Some(digits_value(s))
    } else {
        None
    }
}

/// What `str::parse::<i32>` gives on `s`: the integer it spells, if that
/// fits in an `i32`.
pub open spec fn parsed_i32(s: Seq<char>) -> Option<int> {
    match integer_text_value(s) {
        Some(v) => if i32::MIN <= v <= i32::MAX {
            Some(v)
        } else {
            None
        },
        None => None,
    }
}

/// The record that a line yields when its move number stands in character
/// columns `from .. to`.
pub open spec fn record_of(line: Seq<char>, from: int, to: int) -> RecordModel {
    if 0 <= from <= to <= line.len() {
        match parsed_i32(trim(line.subrange(from, to))) {
            Some(n) => RecordModel::Recorded { number: n, text: line },
            None => RecordModel::Unrecognized { text: line },
        }
    } else {
        RecordModel::Unrecognized { text: line }
    }
}

proof fn lemma_digits_value_nonneg(s: Seq<char>)
    requires
        all_digits(s),
    ensures
        digits_value(s) >= 0,
    decreases s.len(),
{
    if s.len() > 0 {
        lemma_digits_value_nonneg(s.drop_last());
    }
}

/// A prefix of a string of digits is worth no more than the whole.
proof fn lemma_digits_value_prefix(s: Seq<char>, i: int)
    requires
        all_digits(s),
        0 <= i <= s.len(),
    ensures
        digits_value(s.subrange(0, i)) <= digits_value(s),
    decreases s.len(),
{
    if i < s.len() {
        let t = s.drop_last();
        lemma_digits_value_prefix(t, i);
        assert(t.subrange(0, i) =~= s.subrange(0, i));
        lemma_digits_value_nonneg(t);
    } else {
        assert(s.subrange(0, i) =~= s);
    }
}

/// Reads the characters `from .. to` of `line`.
fn chars_between(line: &str, from: usize, to: usize) -> (r: Vec<char>)
    requires
        from <= to <= line@.len(),
    ensures
        r@ == line@.subrange(from as int, to as int),
{
    let mut out: Vec<char> = Vec::new();
    let mut i: usize = from;
    while i < to
        invariant
            from <= i <= to <= line@.len(),
            out@ == line@.subrange(from as int, i as int),
        decreases to - i,
    {
        let c = line.get_char(i);
        out.push(c);
        i = i + 1;
        assert(out@ =~= line@.subrange(from as int, i as int));
    }
    out
}

/// Drops white space from both ends of `s`.
fn trim_chars(s: &Vec<char>) -> (r: Vec<char>)
    ensures
        r@ == trim(s@),
{
    let n = s.len();
    let mut lo: usize = 0;
    assert(s@.subrange(0, n as int) =~= s@);
    while lo < n && is_white_char(s[lo])
        invariant
            lo <= n == s@.len(),
            trim_start(s@) == trim_start(s@.subrange(lo as int, n as int)),
        decreases n - lo,
    {
        assert(s@.subrange(lo as int, n as int).drop_first() =~= s@.subrange(
            lo + 1,
            n as int,
        ));
        lo = lo + 1;
    }
    let ghost front = s@.subrange(lo as int, n as int);
    assert(trim_start(s@) == front);
    let mut hi: usize = n;
    while hi > lo && is_white_char(s[hi - 1])
        invariant
            lo <= hi <= n == s@.len(),
            front == s@.subrange(lo as int, n as int),
            trim_end(front) == trim_end(s@.subrange(lo as int, hi as int)),
        decreases hi,
    {
        assert(s@.subrange(lo as int, hi as int).drop_last() =~= s@.subrange(
            lo as int,
            hi - 1,
        ));
        hi = hi - 1;
    }
    let mut out: Vec<char> = Vec::new();
    let mut i: usize = lo;
    while i < hi
        invariant
            lo <= i <= hi <= n == s@.len(),
            out@ == s@.subrange(lo as int, i as int),
        decreases hi - i,
    {
        out.push(s[i]);
        i = i + 1;
        assert(out@ =~= s@.subrange(lo as int, i as int));
    }
    out
}

/// Reads `s` as `str::parse::<i32>` does: an optional sign and at least one
/// decimal digit, nothing else, the value within the range of `i32`.
pub fn parse_i32(s: &Vec<char>) -> (r: Option<i32>)
    ensures
        match parsed_i32(s@) {
            Some(v) => r == Some(v as i32),
            None => r is None,
        },
{
    let n = s.len();
    if n == 0 {
        return None;
    }
    let negative = s[0] == '-';
    let first: usize = if s[0] == '-' || s[0] == '+' {
        1
    } else {
        0
    };
    if first == n {
        return None;
    }
    let ghost d = s@.subrange(first as int, n as int);
    assert(first == 1 ==> d =~= s@.drop_first());
    assert(first == 0 ==> d =~= s@);
    let mut acc: i64 = 0;
    let mut i: usize = first;
    while i < n
        invariant
            first <= i <= n == s@.len(),
            first <= 1,
            n > 0,
            first == 1 <==> (s@[0] == '-' || s@[0] == '+'),
            negative == (s@[0] == '-'),
            first == 1 ==> d == s@.drop_first(),
            first == 0 ==> d == s@,
            d == s@.subrange(first as int, n as int),
            all_digits(s@.subrange(first as int, i as int)),
            acc == digits_value(s@.subrange(first as int, i as int)),
            0 <= acc <= 0x8000_0000,
        decreases n - i,
    {
        let c = s[i];
        if !('0' <= c && c <= '9') {
            assert(d[i - first] == c);
            assert(!is_digit(d[i - first]));
            assert(!all_digits(d));
            assert(integer_text_value(s@) is None);
            return None;
        }
        let ghost before = s@.subrange(first as int, i as int);
        let ghost after = s@.subrange(first as int, i + 1);
        assert(after.drop_last() =~= before);
        assert(all_digits(after)) by {
            assert forall|j: int| 0 <= j < after.len() implies is_digit(#[trigger] after[j]) by {
                if j < before.len() {
                    assert(after[j] == before[j]);
                }
            }
        }
        acc = acc * 10 + (c as u32 - '0' as u32) as i64;
        i = i + 1;
        if acc > 0x8000_0000 {
            proof {
                if all_digits(d) {
                    assert(d.subrange(0, i - first) =~= after);
                    lemma_digits_value_prefix(d, i - first);
                }
                assert(parsed_i32(s@) is None);
            }
            return None;
        }
    }
    assert(s@.subrange(first as int, n as int) =~= d);
    if negative {
        Some((-acc) as i32)
    } else if acc > 0x7fff_ffff {
        None
    } else {
        Some(acc as i32)
    }
}

/// Reads the record of `line`, whose move number stands in character columns
/// `from .. to`. A line too short to hold the columns, or whose columns do
/// not hold an integer once trimmed, is unrecognized.
pub fn parse_move(line: &str, from: usize, to: usize) -> (r: MoveRecord)
    ensures
        r@ == record_of(line@, from as int, to as int),
{
    let len = line.unicode_len();
    if from > to || to > len {
        return MoveRecord::Unrecognized { raw_text: line.to_owned() };
    }
    let field = chars_between(line, from, to);
    let trimmed = trim_chars(&field);
    match parse_i32(&trimmed) {
        Some(n) => MoveRecord::Recorded { source_move_number: n, raw_text: line.to_owned() },
        None => MoveRecord::Unrecognized { raw_text: line.to_owned() },
    }
}

} // verus!
