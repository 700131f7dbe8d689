//! Character-sequence helpers shared by the renderers.
use vstd::prelude::*;

verus! {

/// Relies on `str::chars`: it yields the characters of the string in order.
#[verifier::external_body]
pub(crate) fn chars_of(s: &str) -> (r: Vec<char>)
    ensures
        r@ == s@,
{
    s.chars().collect()
}

/// Relies on `FromIterator<&char> for String`: the string holds these characters in order.
#[verifier::external_body]
pub(crate) fn string_of(cs: &Vec<char>) -> (r: String)
    ensures
        r@ == cs@,
{
    cs.iter().collect()
}

/// What `str::to_lowercase` returns for a string with these characters.
pub uninterp spec fn lowercase_of(s: Seq<char>) -> Seq<char>;

/// Relies on `str::to_lowercase`: its result depends on the characters alone.
#[verifier::external_body]
pub(crate) fn to_lower(s: &str) -> (r: String)
    ensures
        r@ == lowercase_of(s@),
{
    s.to_lowercase()
}

/// Appends the characters of `s` to `out`.
pub(crate) fn push_str(out: &mut Vec<char>, s: &str)
    ensures
        final(out)@ == old(out)@ + s@,
{
    let mut cs = chars_of(s);
    out.append(&mut cs);
}

/// Appends the characters of `cs` to `out`.
pub(crate) fn push_chars(out: &mut Vec<char>, cs: &Vec<char>)
    ensures
        final(out)@ == old(out)@ + cs@,
{
    let mut i: usize = 0;
    while i < cs.len()
        invariant
            i <= cs.len(),
            out@ == old(out)@ + cs@.take(i as int),
        decreases cs.len() - i,
    {
        out.push(cs[i]);
        i = i + 1;
        proof {
            assert(cs@.take(i as int) =~= cs@.take(i - 1) + seq![cs@[i - 1]]);
        }
    }
    proof {
        assert(cs@.take(cs@.len() as int) =~= cs@);
    }
}

/// Appends `count` copies of `c` to `out`.
pub(crate) fn push_repeat(out: &mut Vec<char>, c: char, count: usize)
    ensures
        final(out)@ == old(out)@ + Seq::new(count as nat, |_i: int| c),
{
    let mut i: usize = 0;
    while i < count
        invariant
            i <= count,
            out@ == old(out)@ + Seq::new(i as nat, |_i: int| c),
        decreases count - i,
    {
        out.push(c);
        i = i + 1;
        proof {
            assert(Seq::new(i as nat, |_i: int| c) =~= Seq::new((i - 1) as nat, |_i: int| c).push(c));
        }
    }
}

/// The decimal digit for `d`, which is below ten.
pub open spec fn digit(d: nat) -> char {
    if d == 0 { '0' }
    else if d == 1 { '1' }
    else if d == 2 { '2' }
    else if d == 3 { '3' }
    else if d == 4 { '4' }
    else if d == 5 { '5' }
    else if d == 6 { '6' }
    else if d == 7 { '7' }
    else if d == 8 { '8' }
    else { '9' }
}

/// The decimal rendering of `n`, without leading zeros.
pub open spec fn decimal(n: nat) -> Seq<char>
    decreases n,
{
    if n < 10 {
        seq![digit(n)]
    } else {
        decimal(n / 10).push(digit(n % 10))
    }
}

fn digit_char(d: u128) -> (c: char)
    requires
        d < 10,
    ensures
        c == digit(d as nat),
{
    if d == 0 { '0' }
    else if d == 1 { '1' }
    else if d == 2 { '2' }
    else if d == 3 { '3' }
    else if d == 4 { '4' }
    else if d == 5 { '5' }
    else if d == 6 { '6' }
    else if d == 7 { '7' }
    else if d == 8 { '8' }
    else { '9' }
}

/// Appends the decimal rendering of `n` to `out`.
pub(crate) fn push_decimal(out: &mut Vec<char>, n: u128)
    ensures
        final(out)@ == old(out)@ + decimal(n as nat),
    decreases n,
{
    if n >= 10 {
        push_decimal(out, n / 10);
    }
    out.push(digit_char(n % 10));
    proof {
        assert(out@ =~= old(out)@ + decimal(n as nat));
    }
}

/// The line under construction, with a carriage return before the newline removed.
pub open spec fn drop_cr(line: Seq<char>) -> Seq<char> {
    if line.len() > 0 && line.last() == '\r' {
        line.drop_last()
    } else {
        line
    }
}

/// The lines of `s[i..]` as `str::lines` gives them, where `cur` holds the
/// characters already read of the current line.
pub open spec fn lines_from(s: Seq<char>, i: int, cur: Seq<char>) -> Seq<Seq<char>>
    decreases s.len() - i,
{
    if i >= s.len() {
        if cur.len() == 0 { seq![] } else { seq![cur] }
    } else if s[i] == '\n' {
        seq![drop_cr(cur)] + lines_from(s, i + 1, seq![])
    } else {
        lines_from(s, i + 1, cur.push(s[i]))
    }
}

/// The lines of `s`: split at each newline, with a `\r` before a newline
/// dropped, and no empty last line after a final newline.
pub open spec fn lines_of(s: Seq<char>) -> Seq<Seq<char>> {
    lines_from(s, 0, seq![])
}

/// Splits `s` into its lines.
pub fn split_lines(s: &Vec<char>) -> (r: Vec<Vec<char>>)
    ensures
        r@.map_values(|l: Vec<char>| l@) == lines_of(s@),
{
    let mut out: Vec<Vec<char>> = Vec::new();
    let mut cur: Vec<char> = Vec::new();
    let mut i: usize = 0;
    while i < s.len()
        invariant
            i <= s.len(),
            out@.map_values(|l: Vec<char>| l@) + lines_from(s@, i as int, cur@) == lines_of(s@),
        decreases s.len() - i,
    {
        let c = s[i];
        let ghost before = out@.map_values(|l: Vec<char>| l@);
        if c == '\n' {
            let mut line = cur;
            if line.len() > 0 && line[line.len() - 1] == '\r' {
                line.pop();
            }
            let ghost dl = line@;
            out.push(line);
            cur = Vec::new();
            proof {
                assert(out@.map_values(|l: Vec<char>| l@) =~= before.push(dl));
                assert(before.push(dl) + lines_from(s@, i + 1, seq![]) =~= before + (seq![dl]
                    + lines_from(s@, i + 1, seq![])));
            }
        } else {
            cur.push(c);
        }
        i = i + 1;
    }
    let ghost before = out@.map_values(|l: Vec<char>| l@);
    if cur.len() > 0 {
        let ghost cl = cur@;
        out.push(cur);
        proof {
            assert(out@.map_values(|l: Vec<char>| l@) =~= before.push(cl));
            assert(before + seq![cl] =~= before.push(cl));
        }
    } else {
        proof {
            assert(before + seq![] =~= before);
        }
    }
    out
}

/// The byte lines of `b[i..]`: split at each `\n`, no empty last line after a
/// final `\n`, where `cur` holds the bytes already read of the current line.
pub open spec fn byte_lines_from(b: Seq<u8>, i: int, cur: Seq<u8>) -> Seq<Seq<u8>>
    decreases b.len() - i,
{
    if i >= b.len() {
        if cur.len() == 0 { seq![] } else { seq![cur] }
    } else if b[i] == 10u8 {
        seq![cur] + byte_lines_from(b, i + 1, seq![])
    } else {
        byte_lines_from(b, i + 1, cur.push(b[i]))
    }
}

/// The lines of a byte string, split at each `\n`.
pub open spec fn byte_lines(b: Seq<u8>) -> Seq<Seq<u8>> {
    byte_lines_from(b, 0, seq![])
}

/// Splits `b` into its lines at each `\n`.
pub fn split_byte_lines(b: &[u8]) -> (r: Vec<Vec<u8>>)
    ensures
        r@.map_values(|l: Vec<u8>| l@) == byte_lines(b@),
{
    let mut out: Vec<Vec<u8>> = Vec::new();
    let mut cur: Vec<u8> = Vec::new();
    let mut i: usize = 0;
    while i < b.len()
        invariant
            i <= b@.len(),
            out@.map_values(|l: Vec<u8>| l@) + byte_lines_from(b@, i as int, cur@) == byte_lines(b@),
        decreases b@.len() - i,
    {
        let c = b[i];
        let ghost before = out@.map_values(|l: Vec<u8>| l@);
        if c == 10u8 {
            let ghost dl = cur@;
            out.push(cur);
            cur = Vec::new();
            proof {
                assert(out@.map_values(|l: Vec<u8>| l@) =~= before.push(dl));
                assert(before.push(dl) + byte_lines_from(b@, i + 1, seq![]) =~= before + (seq![dl]
                    + byte_lines_from(b@, i + 1, seq![])));
            }
        } else {
            cur.push(c);
        }
        i = i + 1;
    }
    let ghost before = out@.map_values(|l: Vec<u8>| l@);
    if cur.len() > 0 {
        let ghost cl = cur@;
        out.push(cur);
        proof {
            assert(out@.map_values(|l: Vec<u8>| l@) =~= before.push(cl));
            assert(before + seq![cl] =~= before.push(cl));
        }
    } else {
        proof {
            assert(before + seq![] =~= before);
        }
    }
    out
}

/// `d` padded on the right with spaces to at least four characters.
pub open spec fn pad4(d: Seq<char>) -> Seq<char> {
    if d.len() < 4 {
        d + Seq::new((4 - d.len()) as nat, |_i: int| ' ')
    } else {
        d
    }
}

/// Appends `n` in decimal, left-aligned in a field of four characters.
pub(crate) fn push_number4(out: &mut Vec<char>, n: u128)
    ensures
        final(out)@ == old(out)@ + pad4(decimal(n as nat)),
{
    let mut d: Vec<char> = Vec::new();
    push_decimal(&mut d, n);
    proof {
        assert(d@ =~= decimal(n as nat));
    }
    let len = d.len();
    push_chars(out, &d);
    if len < 4 {
        push_repeat(out, ' ', 4 - len);
        proof {
            assert(out@ =~= old(out)@ + pad4(decimal(n as nat)));
        }
    }
}

/// The items joined with `", "` between them.
pub open spec fn joined(items: Seq<Seq<char>>) -> Seq<char>
    decreases items.len(),
{
    if items.len() == 0 {
        seq![]
    } else if items.len() == 1 {
        items[0]
    } else {
        joined(items.drop_last()) + ", "@ + items.last()
    }
}

/// Appends the items joined with `", "`.
pub(crate) fn push_joined(out: &mut Vec<char>, items: &Vec<String>)
    ensures
        final(out)@ == old(out)@ + joined(items@.map_values(|s: String| s@)),
{
    let ghost its = items@.map_values(|s: String| s@);
    let mut k: usize = 0;
    while k < items.len()
        invariant
            k <= items.len(),
            its == items@.map_values(|s: String| s@),
            out@ == old(out)@ + joined(its.take(k as int)),
        decreases items.len() - k,
    {
        if k > 0 {
            push_str(out, ", ");
        }
        push_str(out, items[k].as_str());
        k = k + 1;
        proof {
            assert(its.take(k as int).drop_last() =~= its.take(k - 1));
            assert(its.take(k as int).last() == items@[k - 1]@);
            if k == 1 {
                assert(joined(its.take(0)) =~= seq![]);
            }
            assert(out@ =~= old(out)@ + joined(its.take(k as int)));
        }
    }
    proof {
        assert(its.take(items.len() as int) =~= its);
    }
}

} // verus!
