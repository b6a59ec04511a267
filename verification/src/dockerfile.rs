//! The part of a Dockerfile the tool reads: the ports of its `EXPOSE`
//! instructions.

use vstd::prelude::*;
use crate::error::Error;
use crate::text::{chars_of, is_space, char_is_space, lines, lines_of, views};

verus! {

/// What a Dockerfile declares.
#[derive(Debug)]
pub struct DockerfileInfo {
    /// The exposed ports, in order of appearance.
    pub exposed_ports: Vec<u16>,
}

/// A Unicode decimal digit (general category Nd, Unicode 16.0): the
/// characters the pattern class `\d` accepts.
pub open spec fn is_decimal_digit(c: char) -> bool {
    let u = c as u32;
    (0x30 <= u && u <= 0x39) || (0x660 <= u && u <= 0x669) || (0x6f0 <= u && u <= 0x6f9)
        || (0x7c0 <= u && u <= 0x7c9) || (0x966 <= u && u <= 0x96f) || (0x9e6 <= u && u <= 0x9ef)
        || (0xa66 <= u && u <= 0xa6f) || (0xae6 <= u && u <= 0xaef) || (0xb66 <= u && u <= 0xb6f)
        || (0xbe6 <= u && u <= 0xbef) || (0xc66 <= u && u <= 0xc6f) || (0xce6 <= u && u <= 0xcef)
        || (0xd66 <= u && u <= 0xd6f) || (0xde6 <= u && u <= 0xdef) || (0xe50 <= u && u <= 0xe59)
        || (0xed0 <= u && u <= 0xed9) || (0xf20 <= u && u <= 0xf29) || (0x1040 <= u && u <= 0x1049)
        || (0x1090 <= u && u <= 0x1099) || (0x17e0 <= u && u <= 0x17e9) || (0x1810 <= u && u <= 0x1819)
        || (0x1946 <= u && u <= 0x194f) || (0x19d0 <= u && u <= 0x19d9) || (0x1a80 <= u && u <= 0x1a89)
        || (0x1a90 <= u && u <= 0x1a99) || (0x1b50 <= u && u <= 0x1b59) || (0x1bb0 <= u && u <= 0x1bb9)
        || (0x1c40 <= u && u <= 0x1c49) || (0x1c50 <= u && u <= 0x1c59) || (0xa620 <= u && u <= 0xa629)
        || (0xa8d0 <= u && u <= 0xa8d9) || (0xa900 <= u && u <= 0xa909) || (0xa9d0 <= u && u <= 0xa9d9)
        || (0xa9f0 <= u && u <= 0xa9f9) || (0xaa50 <= u && u <= 0xaa59) || (0xabf0 <= u && u <= 0xabf9)
        || (0xff10 <= u && u <= 0xff19) || (0x104a0 <= u && u <= 0x104a9) || (0x10d30 <= u && u <= 0x10d39)
        || (0x10d40 <= u && u <= 0x10d49) || (0x11066 <= u && u <= 0x1106f) || (0x110f0 <= u && u <= 0x110f9)
        || (0x11136 <= u && u <= 0x1113f) || (0x111d0 <= u && u <= 0x111d9) || (0x112f0 <= u && u <= 0x112f9)
        || (0x11450 <= u && u <= 0x11459) || (0x114d0 <= u && u <= 0x114d9) || (0x11650 <= u && u <= 0x11659)
        || (0x116c0 <= u && u <= 0x116c9) || (0x116d0 <= u && u <= 0x116e3) || (0x11730 <= u && u <= 0x11739)
        || (0x118e0 <= u && u <= 0x118e9) || (0x11950 <= u && u <= 0x11959) || (0x11bf0 <= u && u <= 0x11bf9)
        || (0x11c50 <= u && u <= 0x11c59) || (0x11d50 <= u && u <= 0x11d59) || (0x11da0 <= u && u <= 0x11da9)
        || (0x11f50 <= u && u <= 0x11f59) || (0x16130 <= u && u <= 0x16139) || (0x16a60 <= u && u <= 0x16a69)
        || (0x16ac0 <= u && u <= 0x16ac9) || (0x16b50 <= u && u <= 0x16b59) || (0x16d70 <= u && u <= 0x16d79)
        || (0x1ccf0 <= u && u <= 0x1ccf9) || (0x1d7ce <= u && u <= 0x1d7ff) || (0x1e140 <= u && u <= 0x1e149)
        || (0x1e2f0 <= u && u <= 0x1e2f9) || (0x1e4f0 <= u && u <= 0x1e4f9) || (0x1e5f1 <= u && u <= 0x1e5fa)
        || (0x1e950 <= u && u <= 0x1e959) || (0x1fbf0 <= u && u <= 0x1fbf9)
}

/// Executable `is_decimal_digit`.
fn char_is_decimal_digit(c: char) -> (r: bool)
    ensures
        r == is_decimal_digit(c),
{
    let u = c as u32;
    (0x30 <= u && u <= 0x39) || (0x660 <= u && u <= 0x669) || (0x6f0 <= u && u <= 0x6f9)
        || (0x7c0 <= u && u <= 0x7c9) || (0x966 <= u && u <= 0x96f) || (0x9e6 <= u && u <= 0x9ef)
        || (0xa66 <= u && u <= 0xa6f) || (0xae6 <= u && u <= 0xaef) || (0xb66 <= u && u <= 0xb6f)
        || (0xbe6 <= u && u <= 0xbef) || (0xc66 <= u && u <= 0xc6f) || (0xce6 <= u && u <= 0xcef)
        || (0xd66 <= u && u <= 0xd6f) || (0xde6 <= u && u <= 0xdef) || (0xe50 <= u && u <= 0xe59)
        || (0xed0 <= u && u <= 0xed9) || (0xf20 <= u && u <= 0xf29) || (0x1040 <= u && u <= 0x1049)
        || (0x1090 <= u && u <= 0x1099) || (0x17e0 <= u && u <= 0x17e9) || (0x1810 <= u && u <= 0x1819)
        || (0x1946 <= u && u <= 0x194f) || (0x19d0 <= u && u <= 0x19d9) || (0x1a80 <= u && u <= 0x1a89)
        || (0x1a90 <= u && u <= 0x1a99) || (0x1b50 <= u && u <= 0x1b59) || (0x1bb0 <= u && u <= 0x1bb9)
        || (0x1c40 <= u && u <= 0x1c49) || (0x1c50 <= u && u <= 0x1c59) || (0xa620 <= u && u <= 0xa629)
        || (0xa8d0 <= u && u <= 0xa8d9) || (0xa900 <= u && u <= 0xa909) || (0xa9d0 <= u && u <= 0xa9d9)
        || (0xa9f0 <= u && u <= 0xa9f9) || (0xaa50 <= u && u <= 0xaa59) || (0xabf0 <= u && u <= 0xabf9)
        || (0xff10 <= u && u <= 0xff19) || (0x104a0 <= u && u <= 0x104a9) || (0x10d30 <= u && u <= 0x10d39)
        || (0x10d40 <= u && u <= 0x10d49) || (0x11066 <= u && u <= 0x1106f) || (0x110f0 <= u && u <= 0x110f9)
        || (0x11136 <= u && u <= 0x1113f) || (0x111d0 <= u && u <= 0x111d9) || (0x112f0 <= u && u <= 0x112f9)
        || (0x11450 <= u && u <= 0x11459) || (0x114d0 <= u && u <= 0x114d9) || (0x11650 <= u && u <= 0x11659)
        || (0x116c0 <= u && u <= 0x116c9) || (0x116d0 <= u && u <= 0x116e3) || (0x11730 <= u && u <= 0x11739)
        || (0x118e0 <= u && u <= 0x118e9) || (0x11950 <= u && u <= 0x11959) || (0x11bf0 <= u && u <= 0x11bf9)
        || (0x11c50 <= u && u <= 0x11c59) || (0x11d50 <= u && u <= 0x11d59) || (0x11da0 <= u && u <= 0x11da9)
        || (0x11f50 <= u && u <= 0x11f59) || (0x16130 <= u && u <= 0x16139) || (0x16a60 <= u && u <= 0x16a69)
        || (0x16ac0 <= u && u <= 0x16ac9) || (0x16b50 <= u && u <= 0x16b59) || (0x16d70 <= u && u <= 0x16d79)
        || (0x1ccf0 <= u && u <= 0x1ccf9) || (0x1d7ce <= u && u <= 0x1d7ff) || (0x1e140 <= u && u <= 0x1e149)
        || (0x1e2f0 <= u && u <= 0x1e2f9) || (0x1e4f0 <= u && u <= 0x1e4f9) || (0x1e5f1 <= u && u <= 0x1e5fa)
        || (0x1e950 <= u && u <= 0x1e959) || (0x1fbf0 <= u && u <= 0x1fbf9)
}

/// Whether `c` matches, ignoring case, letter `i` of `EXPOSE` (Unicode
/// simple case folding, under which `S` also matches `ſ`).
pub open spec fn expose_letter(c: char, i: int) -> bool {
    if i == 0 || i == 5 {
        c == 'E' || c == 'e'
    } else if i == 1 {
        c == 'X' || c == 'x'
    } else if i == 2 {
        c == 'P' || c == 'p'
    } else if i == 3 {
        c == 'O' || c == 'o'
    } else {
        c == 'S' || c == 's' || c == '\u{17f}'
    }
}

/// Whether `s` holds the keyword `EXPOSE`, in any case, at position `k`.
pub open spec fn keyword_at(s: Seq<char>, k: int) -> bool {
    0 <= k && k + 6 <= s.len() && forall|i: int| 0 <= i < 6 ==> expose_letter(#[trigger] s[k + i], i)
}

/// The position after the white space that starts at `i`.
pub open spec fn spaces_end(s: Seq<char>, i: int) -> int
    decreases s.len() - i,
{
    if 0 <= i < s.len() && is_space(s[i]) {
        spaces_end(s, i + 1)
    } else {
        i
    }
}

/// The position after the decimal digits that start at `i`.
pub open spec fn digits_end(s: Seq<char>, i: int) -> int
    decreases s.len() - i,
{
    if 0 <= i < s.len() && is_decimal_digit(s[i]) {
        digits_end(s, i + 1)
    } else {
        i
    }
}

/// Bounds of `spaces_end`.
pub proof fn lemma_spaces_end(s: Seq<char>, i: int)
    requires
        0 <= i <= s.len(),
    ensures
        i <= spaces_end(s, i) <= s.len(),
        forall|k: int| i <= k < spaces_end(s, i) ==> is_space(#[trigger] s[k]),
        spaces_end(s, i) < s.len() ==> !is_space(s[spaces_end(s, i)]),
    decreases s.len() - i,
{
    if i < s.len() && is_space(s[i]) {
        lemma_spaces_end(s, i + 1);
    }
}

/// Bounds of `digits_end`.
pub proof fn lemma_digits_end(s: Seq<char>, i: int)
    requires
        0 <= i <= s.len(),
    ensures
        i <= digits_end(s, i) <= s.len(),
        forall|k: int| i <= k < digits_end(s, i) ==> is_decimal_digit(#[trigger] s[k]),
    decreases s.len() - i,
{
    if i < s.len() && is_decimal_digit(s[i]) {
        lemma_digits_end(s, i + 1);
    }
}

/// The runs of digits separated by white space that start at `j`: what
/// the pattern `\d+(?:\s+\d+)*` takes, split at white space.
pub open spec fn runs_from(s: Seq<char>, j: int) -> Seq<Seq<char>>
    decreases s.len() - j,
{
    if j < 0 || j >= s.len() || !is_decimal_digit(s[j]) {
        seq![]
    } else {
        let e = digits_end(s, j);
        let m = spaces_end(s, e);
        proof {
            lemma_digits_end(s, j);
            lemma_spaces_end(s, e);
        }
        if m > e && m < s.len() && is_decimal_digit(s[m]) {
            seq![s.subrange(j, e)] + runs_from(s, m)
        } else {
            seq![s.subrange(j, e)]
        }
    }
}

/// The port runs of an `EXPOSE` line: optional white space, the keyword
/// in any case, white space, then runs of digits separated by white space.
/// Other lines give none.
pub open spec fn expose_runs(line: Seq<char>) -> Seq<Seq<char>> {
    let k = spaces_end(line, 0);
    if keyword_at(line, k) && k + 6 < line.len() && is_space(line[k + 6]) {
        runs_from(line, spaces_end(line, k + 6))
    } else {
        seq![]
    }
}

/// Whether every character of `s` is an ASCII digit.
pub open spec fn all_ascii_digits(s: Seq<char>) -> bool {
    forall|i: int| 0 <= i < s.len() ==> '0' <= #[trigger] s[i] && s[i] <= '9'
}

/// The number that ASCII digits spell.
pub open spec fn digits_value(s: Seq<char>) -> nat
    decreases s.len(),
{
    if s.len() == 0 {
        0
    } else {
        10 * digits_value(s.drop_last()) + ((s.last() as u32) - 48) as nat
    }
}

/// A run read as a port, as `str::parse::<u16>` reads it: ASCII digits of
/// a value that fits in 16 bits.
pub open spec fn port_of(run: Seq<char>) -> Option<u16> {
    if all_ascii_digits(run) && digits_value(run) <= 65535 {
        Some(digits_value(run) as u16)
    } else {
        None
    }
}

/// The ports the runs spell, skipping those that are not ports.
pub open spec fn ports_of(runs: Seq<Seq<char>>) -> Seq<u16>
    decreases runs.len(),
{
    if runs.len() == 0 {
        seq![]
    } else {
        (match port_of(runs[0]) {
            Some(p) => seq![p],
            None => seq![],
        }) + ports_of(runs.drop_first())
    }
}

/// The ports exposed by the lines, in order.
pub open spec fn lines_ports(ls: Seq<Seq<char>>) -> Seq<u16>
    decreases ls.len(),
{
    if ls.len() == 0 {
        seq![]
    } else {
        lines_ports(ls.drop_last()) + ports_of(expose_runs(ls.last()))
    }
}

/// The ports a Dockerfile exposes.
pub open spec fn exposed_ports(content: Seq<char>) -> Seq<u16> {
    lines_ports(lines(content))
}

/// Executable `spaces_end`.
fn skip_spaces(s: &Vec<char>, i: usize) -> (r: usize)
    requires
        i <= s.len(),
    ensures
        r == spaces_end(s@, i as int),
{
    let mut k = i;
    while k < s.len() && char_is_space(s[k])
        invariant
            i <= k <= s.len(),
            spaces_end(s@, i as int) == spaces_end(s@, k as int),
        decreases s.len() - k,
    {
        k = k + 1;
    }
    k
}

/// Executable `digits_end`.
fn skip_digits(s: &Vec<char>, i: usize) -> (r: usize)
    requires
        i <= s.len(),
    ensures
        r == digits_end(s@, i as int),
{
    let mut k = i;
    while k < s.len() && char_is_decimal_digit(s[k])
        invariant
            i <= k <= s.len(),
            digits_end(s@, i as int) == digits_end(s@, k as int),
        decreases s.len() - k,
    {
        k = k + 1;
    }
    k
}

/// `port_of` of the run `s[j..e]`.
fn parse_port(s: &Vec<char>, j: usize, e: usize) -> (r: Option<u16>)
    requires
        j <= e <= s.len(),
    ensures
        r == port_of(s@.subrange(j as int, e as int)),
{
    let ghost run = s@.subrange(j as int, e as int);
    let mut value: u32 = 0;
    let mut ascii = true;
    let mut k = j;
    while k < e
        invariant
            j <= k <= e <= s.len(),
            run == s@.subrange(j as int, e as int),
            ascii == all_ascii_digits(run.take(k - j)),
            ascii ==> value == if digits_value(run.take(k - j)) < 65536 {
                digits_value(run.take(k - j))
            } else {
                65536
            },
        decreases e - k,
    {
        let c = s[k];
        let ghost t = run.take(k - j);
        assert(run.take(k + 1 - j).drop_last() =~= t);
        assert(run.take(k + 1 - j).last() == c);
        if '0' <= c && c <= '9' {
            if ascii {
                let d = (c as u32) - 48;
                let next = 10 * value + d;
                let ghost a = digits_value(t);
                assert(digits_value(run.take(k + 1 - j)) == 10 * a + d);
                assert((if 10 * (if a < 65536 { a } else { 65536 }) + d < 65536 { 10 * (if a < 65536 { a } else { 65536 }) + d } else { 65536 }) == (if 10 * a + d < 65536 { 10 * a + d } else { 65536 })) by (nonlinear_arith)
                    requires d < 10;
                value = if next < 65536 { next } else { 65536 };
            }
            proof {
                if ascii {
                    assert forall|i: int| 0 <= i < k + 1 - j implies '0' <= #[trigger] run.take(k + 1 - j)[i] && run.take(k + 1 - j)[i] <= '9' by {
                        if i < k - j {
                            assert(run.take(k + 1 - j)[i] == t[i]);
                        }
                    }
                } else {
                    let i0 = choose|i: int| 0 <= i < t.len() && !('0' <= #[trigger] t[i] && t[i] <= '9');
                    assert(run.take(k + 1 - j)[i0] == t[i0]);
                }
            }
        } else {
            ascii = false;
            assert(!('0' <= run.take(k + 1 - j)[k - j] && run.take(k + 1 - j)[k - j] <= '9'));
        }
        k = k + 1;
    }
    assert(run.take(e - j) =~= run);
    if ascii && value < 65536 {
        Some(value as u16)
    } else {
        None
    }
}

/// The ports of one line, appended to `out`.
fn push_line_ports(line: &Vec<char>, out: &mut Vec<u16>)
    ensures
        final(out)@ == old(out)@ + ports_of(expose_runs(line@)),
{
    let s = line;
    let n = s.len();
    let k = skip_spaces(s, 0);
    proof {
        lemma_spaces_end(s@, 0);
    }
    if k >= n || n - k <= 6 {
        assert(ports_of(expose_runs(s@)) =~= Seq::<u16>::empty());
        assert(out@ + Seq::<u16>::empty() =~= out@);
        return;
    }
    let mut m: usize = 0;
    while m < 6
        invariant
            k + 6 < n,
            n == s.len(),
            k == spaces_end(s@, 0),
            s@ == line@,
            out@ == old(out)@,
            m <= 6,
            forall|i: int| 0 <= i < m ==> expose_letter(#[trigger] s@[k + i], i),
        decreases 6 - m,
    {
        let c = s[k + m];
        let ok = if m == 0 || m == 5 {
            c == 'E' || c == 'e'
        } else if m == 1 {
            c == 'X' || c == 'x'
        } else if m == 2 {
            c == 'P' || c == 'p'
        } else if m == 3 {
            c == 'O' || c == 'o'
        } else {
            c == 'S' || c == 's' || c == '\u{17f}'
        };
        if !ok {
            assert(!keyword_at(s@, k as int));
            assert(ports_of(expose_runs(s@)) =~= Seq::<u16>::empty());
            assert(out@ + Seq::<u16>::empty() =~= out@);
            return;
        }
        m = m + 1;
    }
    assert(keyword_at(s@, k as int));
    if !char_is_space(s[k + 6]) {
        assert(ports_of(expose_runs(s@)) =~= Seq::<u16>::empty());
        assert(out@ + Seq::<u16>::empty() =~= out@);
        return;
    }
    let mut j = skip_spaces(s, k + 6);
    proof {
        lemma_spaces_end(s@, k + 6);
    }
    let ghost goal = old(out)@ + ports_of(expose_runs(s@));
    assert(goal == out@ + ports_of(runs_from(s@, j as int)));
    loop
        invariant_except_break
            j <= n,
            n == s.len(),
            goal == out@ + ports_of(runs_from(s@, j as int)),
            goal == old(out)@ + ports_of(expose_runs(line@)),
        ensures
            goal == out@,
        decreases n - j,
    {
        if j >= n || !char_is_decimal_digit(s[j]) {
            assert(out@ + seq![] =~= out@);
            break;
        }
        let e = skip_digits(s, j);
        proof {
            lemma_digits_end(s@, j as int);
        }
        let port = parse_port(s, j, e);
        let ghost before = out@;
        let m = skip_spaces(s, e);
        proof {
            lemma_spaces_end(s@, e as int);
        }
        let more = m > e && m < n && char_is_decimal_digit(s[m]);
        proof {
            let run = s@.subrange(j as int, e as int);
            let rs = runs_from(s@, j as int);
            assert(rs[0] == run);
            if more {
                assert(rs.drop_first() =~= runs_from(s@, m as int));
            } else {
                assert(rs.drop_first() =~= Seq::<Seq<char>>::empty());
            }
        }
        match port {
            Some(p) => {
                out.push(p);
            },
            None => {},
        }
        if more {
            proof {
                assert(goal =~= out@ + ports_of(runs_from(s@, m as int)));
            }
            j = m;
        } else {
            proof {
                assert(ports_of(Seq::<Seq<char>>::empty()) =~= Seq::<u16>::empty());
                assert(goal =~= out@);
            }
            break;
        }
    }
}

/// The ports that the `EXPOSE` instructions of a Dockerfile declare, in
/// order (see `exposed_ports`). Never fails.
pub fn parse_dockerfile_content(content: &str) -> (r: Result<DockerfileInfo, Error>)
    ensures
        r matches Ok(info) && info.exposed_ports@ == exposed_ports(content@),
{
    let ls = lines_of(content);
    let ghost lv = views(ls@);
    let mut ports: Vec<u16> = Vec::new();
    let mut i: usize = 0;
    while i < ls.len()
        invariant
            i <= ls.len(),
            lv == views(ls@),
            lv == lines(content@),
            ports@ == lines_ports(lv.take(i as int)),
        decreases ls.len() - i,
    {
        assert(lv.take(i + 1).drop_last() =~= lv.take(i as int));
        assert(lv.take(i + 1).last() == ls@[i as int]@);
        let line = chars_of(ls[i].as_str());
        push_line_ports(&line, &mut ports);
        i = i + 1;
    }
    assert(lv.take(i as int) =~= lv);
    Ok(DockerfileInfo { exposed_ports: ports })
}

/// Whether a Dockerfile exposes any port.
pub fn has_expose_instruction(content: &str) -> (r: Result<bool, Error>)
    ensures
        r matches Ok(b) && b == (exposed_ports(content@).len() > 0),
{
    match parse_dockerfile_content(content) {
        Ok(info) => Ok(info.exposed_ports.len() > 0),
        Err(e) => Err(e),
    }
}

} // verus!
