use vstd::prelude::*;

verus! {

/// The text that `encoding_rs` decodes from `bytes` as Shift_JIS.
pub uninterp spec fn shift_jis_text(bytes: Seq<u8>) -> Seq<char>;

/// Relies on `encoding_rs::Encoding::decode` called on `SHIFT_JIS`: it decodes
/// the whole input (a byte order mark, where there is one, picks its own
/// encoding; malformed bytes become U+FFFD), so the text depends on the bytes
/// alone. It panics only where a buffer size overflows, which the bound on
/// the input's length rules out, the collected characters included.
#[verifier::external_body]
fn decode_shift_jis(bytes: &[u8]) -> (r: Vec<char>)
    requires
        bytes@.len() <= usize::MAX / 64,
    ensures
        r@ == shift_jis_text(bytes@),
{
    let (text, _, _) = encoding_rs::SHIFT_JIS.decode(bytes);
    text.chars().collect()
}

/// Relies on `String`'s `FromIterator<char>`: the string holds the characters
/// in order.
#[verifier::external_body]
fn string_of(chars: &Vec<char>) -> (r: String)
    ensures
        r@ == chars@,
{
    chars.iter().collect()
}

/// `l` without one carriage return at its end.
pub open spec fn strip_cr(l: Seq<char>) -> Seq<char> {
    if l.len() > 0 && l.last() == '\r' {
        l.drop_last()
    } else {
        l
    }
}

/// The lines of `t` from position `i` on, where the line being read began at
/// `start`. A line ends at `\n`, which it does not keep, nor a `\r` before
/// it; text after the last `\n` is a last line when it is not empty.
pub open spec fn lines_from(t: Seq<char>, start: int, i: int) -> Seq<Seq<char>>
    decreases t.len() - i,
{
    if i >= t.len() {
        if start < t.len() {
            seq![t.subrange(start, t.len() as int)]
        } else {
            Seq::empty()
        }
    } else if t[i] == '\n' {
        seq![strip_cr(t.subrange(start, i))] + lines_from(t, i + 1, i + 1)
    } else {
        lines_from(t, start, i + 1)
    }
}

/// The lines of `t`, as `BufRead::lines` reads them.
pub open spec fn text_lines(t: Seq<char>) -> Seq<Seq<char>> {
    lines_from(t, 0, 0)
}

/// Cuts `text` into lines, as `BufRead::lines` does.
pub fn split_lines(text: &Vec<char>) -> (r: Vec<String>)
    ensures
        r@.map_values(|s: String| s@) == text_lines(text@),
{
    let ghost t = text@;
    let n = text.len();
    let mut out: Vec<String> = Vec::new();
    let mut line: Vec<char> = Vec::new();
    let mut start: usize = 0;
    let mut i: usize = 0;
    while i < n
        invariant
            n == t.len(),
            t == text@,
            start <= i <= n,
            line@ == t.subrange(start as int, i as int),
            text_lines(t) == out@.map_values(|s: String| s@) + lines_from(
                t,
                start as int,
                i as int,
            ),
        decreases n - i,
    {
        let c = text[i];
        if c == '\n' {
            let ghost done = strip_cr(line@);
            let len = line.len();
            if len > 0 && line[len - 1] == '\r' {
                line.pop();
            }
            assert(line@ =~= done);
            let ghost before = out@.map_values(|s: String| s@);
            out.push(string_of(&line));
            assert(out@.map_values(|s: String| s@) =~= before.push(done));
            assert(before.push(done) + lines_from(t, i + 1, i + 1) =~= before + (seq![done]
                + lines_from(t, i + 1, i + 1)));
            line = Vec::new();
            start = i + 1;
        } else {
            line.push(c);
        }
        i = i + 1;
        assert(line@ =~= t.subrange(start as int, i as int));
    }
    let ghost before = out@.map_values(|s: String| s@);
    if start < n {
        out.push(string_of(&line));
        assert(out@.map_values(|s: String| s@) =~= before + lines_from(t, start as int, i as int));
    } else {
        assert(before + lines_from(t, start as int, i as int) =~= before);
    }
    out
}

/// Decodes a Shift_JIS record and cuts it into lines.
pub fn decode_lines(bytes: &[u8]) -> (r: Vec<String>)
    requires
        bytes@.len() <= usize::MAX / 64,
    ensures
        r@.map_values(|s: String| s@) == text_lines(shift_jis_text(bytes@)),
{
    let text = decode_shift_jis(bytes);
    split_lines(&text)
}

} // verus!
