//! String helpers shared by the sandbox validator and the parsers.
//!
//! Everything here is stated over `Seq<char>` views; the executable
//! functions walk characters with the vstd string primitives.

use vstd::prelude::*;
use vstd::string::StrSliceExecFns;
use vstd::string::StringExecFns;

verus! {

/// `p` is a prefix of `s`, character for character.
pub open spec fn starts_with(s: Seq<char>, p: Seq<char>) -> bool {
    p.len() <= s.len() && s.subrange(0, p.len() as int) == p
}

/// `p` is a suffix of `s`, character for character.
pub open spec fn ends_with(s: Seq<char>, p: Seq<char>) -> bool {
    p.len() <= s.len() && s.subrange(s.len() - p.len(), s.len() as int) == p
}

pub fn str_starts_with(s: &str, p: &str) -> (r: bool)
    ensures
        r == starts_with(s@, p@),
{
    let sn = s.unicode_len();
    let pn = p.unicode_len();
    if pn > sn {
        return false;
    }
    let mut i: usize = 0;
    while i < pn
        invariant
            i <= pn <= sn,
            pn == p@.len(),
            sn == s@.len(),
            forall|j: int| 0 <= j < i ==> s@[j] == p@[j],
        decreases pn - i,
    {
        if s.get_char(i) != p.get_char(i) {
            assert(s@.subrange(0, pn as int)[i as int] != p@[i as int]);
            return false;
        }
        i += 1;
    }
    assert(s@.subrange(0, pn as int) =~= p@);
    true
}

pub fn str_ends_with(s: &str, p: &str) -> (r: bool)
    ensures
        r == ends_with(s@, p@),
{
    let sn = s.unicode_len();
    let pn = p.unicode_len();
    if pn > sn {
        return false;
    }
    let base = sn - pn;
    let mut i: usize = 0;
    while i < pn
        invariant
            i <= pn <= sn,
            base == sn - pn,
            pn == p@.len(),
            sn == s@.len(),
            forall|j: int| 0 <= j < i ==> s@[base + j] == p@[j],
        decreases pn - i,
    {
        if s.get_char(base + i) != p.get_char(i) {
            assert(s@.subrange(sn - pn, sn as int)[i as int] != p@[i as int]);
            return false;
        }
        i += 1;
    }
    assert(s@.subrange(sn - pn, sn as int) =~= p@);
    true
}

pub fn str_eq(a: &str, b: &str) -> (r: bool)
    ensures
        r == (a@ == b@),
{
    let an = a.unicode_len();
    let bn = b.unicode_len();
    if an != bn {
        return false;
    }
    let mut i: usize = 0;
    while i < an
        invariant
            i <= an,
            an == a@.len(),
            an == b@.len(),
            forall|j: int| 0 <= j < i ==> a@[j] == b@[j],
        decreases an - i,
    {
        if a.get_char(i) != b.get_char(i) {
            return false;
        }
        i += 1;
    }
    assert(a@ =~= b@);
    true
}

/// Concatenation of two string slices as an owned string.
pub fn concat_str(a: &str, b: &str) -> (r: String)
    ensures
        r@ == a@ + b@,
{
    let mut r = a.to_owned();
    r.append(b);
    r
}

/// The characters of `s` from `from` onward, as an owned string.
pub fn tail_from(s: &str, from: usize) -> (r: String)
    requires
        from <= s@.len(),
    ensures
        r@ == s@.skip(from as int),
{
    let n = s.unicode_len();
    let t = s.substring_char(from, n);
    t.to_owned()
}

/// Leftmost-first removal of every occurrence of `p` from `s`.
pub open spec fn remove_all(s: Seq<char>, p: Seq<char>) -> Seq<char>
    decreases s.len(),
    when p.len() > 0
{
    if s.len() == 0 {
        s
    } else if starts_with(s, p) {
        remove_all(s.skip(p.len() as int), p)
    } else {
        seq![s[0]] + remove_all(s.skip(1), p)
    }
}

/// Does `p` occur in `s` at position `at`?
pub fn matches_at(s: &str, at: usize, p: &str) -> (r: bool)
    requires
        at <= s@.len(),
    ensures
        r == starts_with(s@.skip(at as int), p@),
{
    let sn = s.unicode_len();
    let pn = p.unicode_len();
    if pn > sn - at {
        return false;
    }
    let mut i: usize = 0;
    while i < pn
        invariant
            i <= pn,
            at + pn <= sn,
            pn == p@.len(),
            sn == s@.len(),
            forall|j: int| 0 <= j < i ==> s@[at + j] == p@[j],
        decreases pn - i,
    {
        if s.get_char(at + i) != p.get_char(i) {
            assert(s@.skip(at as int).subrange(0, pn as int)[i as int] != p@[i as int]);
            return false;
        }
        i += 1;
    }
    assert(s@.skip(at as int).subrange(0, pn as int) =~= p@);
    true
}

/// Removes every occurrence of `p` from `s`, scanning left to right.
pub fn remove_occurrences(s: &str, p: &str) -> (r: String)
    requires
        p@.len() > 0,
    ensures
        r@ == remove_all(s@, p@),
{
    let sn = s.unicode_len();
    let pn = p.unicode_len();
    let mut out = String::new();
    let mut i: usize = 0;
    let mut seg: usize = 0;
    proof {
        assert(s@.skip(0) =~= s@);
        assert(s@.subrange(0, 0) =~= Seq::<char>::empty());
        assert(Seq::<char>::empty() + Seq::<char>::empty() + remove_all(s@, p@) =~= remove_all(
            s@,
            p@,
        ));
    }
    while i < sn
        invariant
            seg <= i <= sn,
            sn == s@.len(),
            pn == p@.len(),
            pn > 0,
            remove_all(s@, p@) == out@ + s@.subrange(seg as int, i as int) + remove_all(
                s@.skip(i as int),
                p@,
            ),
        decreases sn - i,
    {
        if matches_at(s, i, p) {
            let piece = s.substring_char(seg, i);
            out.append(piece);
            proof {
                assert(s@.skip(i as int).skip(pn as int) =~= s@.skip(i as int + pn as int));
                assert(remove_all(s@.skip(i as int), p@) == remove_all(
                    s@.skip(i as int + pn as int),
                    p@,
                ));
            }
            i = i + pn;
            seg = i;
            proof {
                assert(s@.subrange(seg as int, i as int) =~= Seq::<char>::empty());
                assert(out@ + s@.subrange(seg as int, i as int) =~= out@);
            }
        } else {
            proof {
                let rest = s@.skip(i as int);
                assert(rest.len() > 0);
                assert(!starts_with(rest, p@));
                assert(remove_all(rest, p@) == seq![rest[0]] + remove_all(rest.skip(1), p@));
                assert(rest.skip(1) =~= s@.skip(i as int + 1));
                assert(rest[0] == s@[i as int]);
                assert(s@.subrange(seg as int, i as int) + seq![s@[i as int]] =~= s@.subrange(
                    seg as int,
                    i as int + 1,
                ));
                assert(out@ + s@.subrange(seg as int, i as int) + (seq![rest[0]] + remove_all(
                    rest.skip(1),
                    p@,
                )) =~= out@ + s@.subrange(seg as int, i as int + 1) + remove_all(
                    s@.skip(i as int + 1),
                    p@,
                ));
            }
            i = i + 1;
        }
    }
    let last = s.substring_char(seg, sn);
    out.append(last);
    proof {
        assert(s@.skip(sn as int) =~= Seq::<char>::empty());
        assert(remove_all(s@.skip(sn as int), p@) =~= Seq::<char>::empty());
        assert(out@ =~= remove_all(s@, p@));
    }
    out
}

/// Whether a character has the Unicode White_Space property.
pub uninterp spec fn is_unicode_ws(c: char) -> bool;

/// Relies on char::is_whitespace: White_Space is a property of the
/// character alone, and among the ASCII characters exactly tab, line
/// feed, vertical tab, form feed, carriage return and space have it.
#[verifier::external_body]
pub(crate) fn char_is_ws(c: char) -> (r: bool)
    ensures
        r == is_unicode_ws(c),
        (c as u32) < 128 ==> (r <==> (c == ' ' || c == '\t' || c == '\n' || (c as u32) == 11
            || (c as u32) == 12 || c == '\r')),
{
    c.is_whitespace()
}

/// `s` without its leading whitespace.
pub open spec fn trim_start_spec(s: Seq<char>) -> Seq<char>
    decreases s.len(),
{
    if s.len() > 0 && is_unicode_ws(s[0]) {
        trim_start_spec(s.skip(1))
    } else {
        s
    }
}

/// `s` without its trailing whitespace.
pub open spec fn trim_end_spec(s: Seq<char>) -> Seq<char>
    decreases s.len(),
{
    if s.len() > 0 && is_unicode_ws(s.last()) {
        trim_end_spec(s.drop_last())
    } else {
        s
    }
}

/// `s` without leading or trailing whitespace.
pub open spec fn trim_spec(s: Seq<char>) -> Seq<char> {
    trim_end_spec(trim_start_spec(s))
}

/// Removes leading and trailing whitespace.
pub fn trim_ws(s: &str) -> (r: String)
    ensures
        r@ == trim_spec(s@),
{
    let n = s.unicode_len();
    let mut a: usize = 0;
    proof {
        assert(s@.skip(0) =~= s@);
    }
    while a < n && char_is_ws(s.get_char(a))
        invariant
            a <= n,
            n == s@.len(),
            trim_start_spec(s@) == trim_start_spec(s@.skip(a as int)),
        decreases n - a,
    {
        proof {
            let rest = s@.skip(a as int);
            assert(rest[0] == s@[a as int]);
            assert(rest.skip(1) =~= s@.skip(a as int + 1));
        }
        a = a + 1;
    }
    proof {
        let rest = s@.skip(a as int);
        if rest.len() > 0 {
            assert(rest[0] == s@[a as int]);
        }
        assert(trim_start_spec(rest) == rest);
    }
    let mut b = n;
    proof {
        assert(s@.skip(a as int) =~= s@.subrange(a as int, n as int));
    }
    while b > a && char_is_ws(s.get_char(b - 1))
        invariant
            a <= b <= n,
            n == s@.len(),
            trim_start_spec(s@) == s@.subrange(a as int, n as int),
            trim_end_spec(s@.subrange(a as int, n as int)) == trim_end_spec(
                s@.subrange(a as int, b as int),
            ),
        decreases b,
    {
        proof {
            let t = s@.subrange(a as int, b as int);
            assert(t.last() == s@[b - 1]);
            assert(t.drop_last() =~= s@.subrange(a as int, b as int - 1));
        }
        b = b - 1;
    }
    proof {
        let t = s@.subrange(a as int, b as int);
        if t.len() > 0 {
            assert(t.last() == s@[b - 1]);
        }
        assert(trim_end_spec(t) == t);
    }
    let r = s.substring_char(a, b);
    r.to_owned()
}

/// The segments of `s` between occurrences of `c`; `cur` carries the
/// segment being read. A separator at the end yields a final empty
/// segment, and an empty input yields one empty segment.
pub open spec fn split_char_rec(s: Seq<char>, c: char, cur: Seq<char>) -> Seq<Seq<char>>
    decreases s.len(),
{
    if s.len() == 0 {
        seq![cur]
    } else if s[0] == c {
        seq![cur] + split_char_rec(s.skip(1), c, Seq::<char>::empty())
    } else {
        split_char_rec(s.skip(1), c, cur.push(s[0]))
    }
}

/// The segments of `s` between occurrences of `c`.
pub open spec fn split_char(s: Seq<char>, c: char) -> Seq<Seq<char>> {
    split_char_rec(s, c, Seq::<char>::empty())
}

/// Splits `s` at every occurrence of `c`, keeping empty segments.
pub fn split_on_char(s: &str, c: char) -> (r: Vec<String>)
    ensures
        r@.map_values(|p: String| p@) == split_char(s@, c),
{
    let sn = s.unicode_len();
    let mut out: Vec<String> = Vec::new();
    let mut i: usize = 0;
    let mut seg: usize = 0;
    proof {
        assert(s@.skip(0) =~= s@);
        assert(s@.subrange(0, 0) =~= Seq::<char>::empty());
        assert(out@.map_values(|p: String| p@) =~= Seq::<Seq<char>>::empty());
        assert(Seq::<Seq<char>>::empty() + split_char_rec(s@, c, Seq::<char>::empty())
            =~= split_char_rec(s@, c, Seq::<char>::empty()));
    }
    while i < sn
        invariant
            seg <= i <= sn,
            sn == s@.len(),
            split_char(s@, c) == out@.map_values(|p: String| p@) + split_char_rec(
                s@.skip(i as int),
                c,
                s@.subrange(seg as int, i as int),
            ),
        decreases sn - i,
    {
        proof {
            let rest = s@.skip(i as int);
            assert(rest[0] == s@[i as int]);
            assert(rest.skip(1) =~= s@.skip(i as int + 1));
        }
        if s.get_char(i) == c {
            let piece = s.substring_char(seg, i);
            let piece = piece.to_owned();
            proof {
                assert((out@.push(piece)).map_values(|p: String| p@) =~= out@.map_values(
                    |p: String| p@,
                ).push(piece@));
            }
            out.push(piece);
            i = i + 1;
            seg = i;
            proof {
                assert(s@.subrange(seg as int, i as int) =~= Seq::<char>::empty());
            }
        } else {
            proof {
                assert(s@.subrange(seg as int, i as int).push(s@[i as int]) =~= s@.subrange(
                    seg as int,
                    i as int + 1,
                ));
            }
            i = i + 1;
        }
    }
    let piece = s.substring_char(seg, sn);
    let piece = piece.to_owned();
    proof {
        assert(s@.skip(sn as int) =~= Seq::<char>::empty());
        assert((out@.push(piece)).map_values(|p: String| p@) =~= out@.map_values(
            |p: String| p@,
        ).push(piece@));
        assert(out@.map_values(|p: String| p@) + seq![s@.subrange(seg as int, sn as int)]
            =~= (out@.push(piece)).map_values(|p: String| p@));
    }
    out.push(piece);
    out
}

/// The lines of `s`: segments between newline characters, each with a
/// trailing carriage return removed, and no empty segment after a final
/// newline. `cur` carries the characters of the line being read.
pub open spec fn split_lines_rec(s: Seq<char>, cur: Seq<char>) -> Seq<Seq<char>>
    decreases s.len(),
{
    if s.len() == 0 {
        if cur.len() == 0 {
            Seq::<Seq<char>>::empty()
        } else {
            seq![chop_cr(cur)]
        }
    } else if s[0] == '\n' {
        seq![chop_cr(cur)] + split_lines_rec(s.skip(1), Seq::<char>::empty())
    } else {
        split_lines_rec(s.skip(1), cur.push(s[0]))
    }
}

/// A line with a trailing carriage return removed.
pub open spec fn chop_cr(l: Seq<char>) -> Seq<char> {
    if l.len() > 0 && l.last() == '\r' {
        l.drop_last()
    } else {
        l
    }
}

pub open spec fn split_lines(s: Seq<char>) -> Seq<Seq<char>> {
    split_lines_rec(s, Seq::<char>::empty())
}

/// One line of `s`, already delimited, with a trailing `\r` removed.
fn take_line(s: &str, from: usize, to: usize) -> (r: String)
    requires
        from <= to <= s@.len(),
    ensures
        r@ == chop_cr(s@.subrange(from as int, to as int)),
{
    if to > from && s.get_char(to - 1) == '\r' {
        let t = s.substring_char(from, to - 1);
        proof {
            let l = s@.subrange(from as int, to as int);
            assert(l.last() == s@[to - 1]);
            assert(l.drop_last() =~= s@.subrange(from as int, to as int - 1));
        }
        t.to_owned()
    } else {
        let t = s.substring_char(from, to);
        proof {
            let l = s@.subrange(from as int, to as int);
            if l.len() > 0 {
                assert(l.last() == s@[to - 1]);
            }
        }
        t.to_owned()
    }
}

/// Splits `s` into lines, as `str::lines` does: `\n` ends a line, a
/// trailing `\r` before it is dropped, and a final newline produces no
/// empty last line.
pub fn split_into_lines(s: &str) -> (r: Vec<String>)
    ensures
        r@.map_values(|l: String| l@) == split_lines(s@),
{
    let sn = s.unicode_len();
    let mut out: Vec<String> = Vec::new();
    let mut i: usize = 0;
    let mut ls: usize = 0;
    proof {
        assert(s@.skip(0) =~= s@);
        assert(s@.subrange(0, 0) =~= Seq::<char>::empty());
        assert(out@.map_values(|l: String| l@) =~= Seq::<Seq<char>>::empty());
        assert(Seq::<Seq<char>>::empty() + split_lines_rec(s@, Seq::<char>::empty())
            =~= split_lines_rec(s@, Seq::<char>::empty()));
    }
    while i < sn
        invariant
            ls <= i <= sn,
            sn == s@.len(),
            split_lines(s@) == out@.map_values(|l: String| l@) + split_lines_rec(
                s@.skip(i as int),
                s@.subrange(ls as int, i as int),
            ),
        decreases sn - i,
    {
        let c = s.get_char(i);
        if c == '\n' {
            let line = take_line(s, ls, i);
            proof {
                let rest = s@.skip(i as int);
                let cur = s@.subrange(ls as int, i as int);
                assert(rest[0] == s@[i as int]);
                assert(rest.skip(1) =~= s@.skip(i as int + 1));
                assert(split_lines_rec(rest, cur) == seq![chop_cr(cur)] + split_lines_rec(
                    s@.skip(i as int + 1),
                    Seq::<char>::empty(),
                ));
                assert((out@.push(line)).map_values(|l: String| l@) =~= out@.map_values(
                    |l: String| l@,
                ).push(line@));
            }
            out.push(line);
            i = i + 1;
            ls = i;
            proof {
                assert(s@.subrange(ls as int, i as int) =~= Seq::<char>::empty());
            }
        } else {
            proof {
                let rest = s@.skip(i as int);
                let cur = s@.subrange(ls as int, i as int);
                assert(rest[0] == s@[i as int]);
                assert(rest.skip(1) =~= s@.skip(i as int + 1));
                assert(cur.push(s@[i as int]) =~= s@.subrange(ls as int, i as int + 1));
                assert(split_lines_rec(rest, cur) == split_lines_rec(
                    s@.skip(i as int + 1),
                    s@.subrange(ls as int, i as int + 1),
                ));
            }
            i = i + 1;
        }
    }
    proof {
        assert(s@.skip(sn as int) =~= Seq::<char>::empty());
    }
    if ls < sn {
        let line = take_line(s, ls, sn);
        proof {
            let cur = s@.subrange(ls as int, sn as int);
            assert(split_lines_rec(Seq::<char>::empty(), cur) =~= seq![chop_cr(cur)]);
            assert((out@.push(line)).map_values(|l: String| l@) =~= out@.map_values(
                |l: String| l@,
            ).push(line@));
        }
        out.push(line);
    } else {
        proof {
            assert(s@.subrange(ls as int, sn as int) =~= Seq::<char>::empty());
            assert(split_lines_rec(Seq::<char>::empty(), Seq::<char>::empty())
                =~= Seq::<Seq<char>>::empty());
            assert(out@.map_values(|l: String| l@) + Seq::<Seq<char>>::empty() =~= out@.map_values(
                |l: String| l@,
            ));
        }
    }
    out
}

} // verus!
