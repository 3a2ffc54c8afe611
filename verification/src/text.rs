//! Verified text helpers: splitting on a delimiter, trimming whitespace,
//! and rendering integers in decimal.

use vstd::prelude::*;
use vstd::string::StrSliceExecFns;
use vstd::string::StringExecFns;

verus! {

/// The views of a sequence of strings.
pub open spec fn lines_of(v: Seq<String>) -> Seq<Seq<char>> {
    v.map_values(|s: String| s@)
}

pub broadcast proof fn lemma_lines_of_push(v: Seq<String>, s: String)
    ensures
        #[trigger] lines_of(v.push(s)) == lines_of(v).push(s@),
{
    assert(lines_of(v.push(s)) =~= lines_of(v).push(s@));
}

/// The pieces of `s` split on the delimiter `d`: always at least one piece,
/// with empty pieces where delimiters are adjacent or at either end.
pub open spec fn split_on(s: Seq<char>, d: char) -> Seq<Seq<char>>
    decreases s.len(),
{
    if s.len() == 0 {
        seq![Seq::<char>::empty()]
    } else if s[0] == d {
        seq![Seq::<char>::empty()] + split_on(s.drop_first(), d)
    } else {
        prefix_first(seq![s[0]], split_on(s.drop_first(), d))
    }
}

/// `pieces` with `p` prepended to its first piece.
pub open spec fn prefix_first(p: Seq<char>, pieces: Seq<Seq<char>>) -> Seq<Seq<char>> {
    seq![p + pieces[0]] + pieces.drop_first()
}

pub proof fn lemma_split_on_len(s: Seq<char>, d: char)
    ensures
        split_on(s, d).len() >= 1,
    decreases s.len(),
{
    if s.len() != 0 {
        lemma_split_on_len(s.drop_first(), d);
    }
}

proof fn lemma_prefix_first_empty(pieces: Seq<Seq<char>>)
    requires
        pieces.len() >= 1,
    ensures
        prefix_first(Seq::<char>::empty(), pieces) == pieces,
{
    assert(Seq::<char>::empty() + pieces[0] =~= pieces[0]);
    assert(prefix_first(Seq::<char>::empty(), pieces) =~= pieces);
}

proof fn lemma_prefix_first_assoc(a: Seq<char>, b: Seq<char>, pieces: Seq<Seq<char>>)
    requires
        pieces.len() >= 1,
    ensures
        prefix_first(a, prefix_first(b, pieces)) == prefix_first(a + b, pieces),
{
    assert(a + (b + pieces[0]) =~= (a + b) + pieces[0]);
    assert(prefix_first(a, prefix_first(b, pieces)) =~= prefix_first(a + b, pieces));
}

/// Splits a string on a delimiter character, as `split_on` describes.
pub fn split_str(s: &str, d: char) -> (r: Vec<String>)
    ensures
        lines_of(r@) == split_on(s@, d),
{
    broadcast use lemma_lines_of_push;

    let n = s.unicode_len();
    let mut r: Vec<String> = Vec::new();
    let mut start: usize = 0;
    let mut i: usize = 0;
    proof {
        assert(s@.subrange(0, n as int) =~= s@);
        assert(lines_of(r@) =~= Seq::<Seq<char>>::empty());
    }
    while i < n
        invariant
            start <= i <= n == s@.len(),
            lines_of(r@) + prefix_first(
                s@.subrange(start as int, i as int),
                split_on(s@.subrange(i as int, n as int), d),
            ) =~= split_on(s@, d),
        decreases n - i,
    {
        proof {
            lemma_split_on_len(s@.subrange(i as int + 1, n as int), d);
        }
        let c = s.get_char(i);
        if c == d {
            let piece = String::from_str(s.substring_char(start, i));
            proof {
                let cur = s@.subrange(start as int, i as int);
                let rest = s@.subrange(i as int, n as int);
                let rest1 = s@.subrange(i as int + 1, n as int);
                assert(rest.drop_first() =~= rest1);
                assert(rest[0] == d);
                assert(split_on(rest, d) == seq![Seq::<char>::empty()] + split_on(rest1, d));
                let pieces = split_on(rest1, d);
                assert((seq![Seq::<char>::empty()] + pieces)[0] =~= Seq::<char>::empty());
                assert((seq![Seq::<char>::empty()] + pieces).drop_first() =~= pieces);
                assert(cur + Seq::<char>::empty() =~= cur);
                assert(prefix_first(cur, split_on(rest, d)) =~= seq![cur] + pieces);
                lemma_prefix_first_empty(pieces);
                assert(lines_of(r@).push(cur) + prefix_first(Seq::<char>::empty(), pieces)
                    =~= lines_of(r@) + (seq![cur] + pieces));
            }
            r.push(piece);
            start = i + 1;
        } else {
            proof {
                let cur = s@.subrange(start as int, i as int);
                let rest = s@.subrange(i as int, n as int);
                let rest1 = s@.subrange(i as int + 1, n as int);
                assert(rest.drop_first() =~= rest1);
                assert(rest[0] == c);
                assert(split_on(rest, d) == prefix_first(seq![c], split_on(rest1, d)));
                lemma_prefix_first_assoc(cur, seq![c], split_on(rest1, d));
                assert(cur + seq![c] =~= s@.subrange(start as int, i as int + 1));
            }
        }
        i = i + 1;
    }
    let piece = String::from_str(s.substring_char(start, n));
    proof {
        let cur = s@.subrange(start as int, n as int);
        let rest = s@.subrange(n as int, n as int);
        assert(rest =~= Seq::<char>::empty());
        assert(split_on(rest, d) == seq![Seq::<char>::empty()]);
        assert(cur + Seq::<char>::empty() =~= cur);
        assert(seq![cur + Seq::<char>::empty()].drop_first()
            =~= Seq::<Seq<char>>::empty());
        assert(prefix_first(cur, split_on(rest, d)) =~= seq![cur]);
        assert(lines_of(r@).push(cur) =~= lines_of(r@) + seq![cur]);
    }
    r.push(piece);
    r
}

/// The pieces joined back with the delimiter between them.
pub open spec fn join_with(pieces: Seq<Seq<char>>, d: char) -> Seq<char>
    decreases pieces.len(),
{
    if pieces.len() == 0 {
        Seq::<char>::empty()
    } else if pieces.len() == 1 {
        pieces[0]
    } else {
        pieces[0] + seq![d] + join_with(pieces.drop_first(), d)
    }
}

/// Splitting loses nothing: joining the pieces with the same delimiter
/// restores the original text, so a text and its split determine each other.
pub proof fn lemma_split_join(s: Seq<char>, d: char)
    ensures
        join_with(split_on(s, d), d) == s,
    decreases s.len(),
{
    if s.len() == 0 {
        assert(split_on(s, d) == seq![Seq::<char>::empty()]);
        assert(join_with(seq![Seq::<char>::empty()], d) == Seq::<char>::empty());
        assert(s =~= Seq::<char>::empty());
    } else if s[0] == d {
        lemma_split_join(s.drop_first(), d);
        lemma_split_on_len(s.drop_first(), d);
        let x = split_on(s.drop_first(), d);
        let sp = seq![Seq::<char>::empty()] + x;
        assert(split_on(s, d) == sp);
        assert(sp.len() >= 2);
        assert(sp[0] =~= Seq::<char>::empty());
        assert(sp.drop_first() =~= x);
        assert(join_with(sp, d) == sp[0] + seq![d] + join_with(x, d));
        assert(Seq::<char>::empty() + seq![d] + s.drop_first() =~= s);
    } else {
        lemma_split_join(s.drop_first(), d);
        lemma_split_on_len(s.drop_first(), d);
        let x = split_on(s.drop_first(), d);
        let sp = prefix_first(seq![s[0]], x);
        assert(split_on(s, d) == sp);
        assert(sp[0] == seq![s[0]] + x[0]);
        assert(sp.drop_first() =~= x.drop_first());
        assert(sp.len() == x.len());
        if x.len() == 1 {
            assert(join_with(sp, d) == sp[0]);
            assert(join_with(x, d) == x[0]);
            assert(seq![s[0]] + s.drop_first() =~= s);
        } else {
            assert(join_with(sp, d) == sp[0] + seq![d] + join_with(sp.drop_first(), d));
            assert(join_with(x, d) == x[0] + seq![d] + join_with(x.drop_first(), d));
            assert((seq![s[0]] + x[0]) + seq![d] + join_with(x.drop_first(), d)
                =~= seq![s[0]] + (x[0] + seq![d] + join_with(x.drop_first(), d)));
            assert(seq![s[0]] + s.drop_first() =~= s);
        }
    }
}

/// The characters with Unicode property `White_Space`, the set that
/// `char::is_whitespace` recognizes.
pub open spec fn is_ws(c: char) -> bool {
    (0x09 <= c as u32 <= 0x0D) || c as u32 == 0x20 || c as u32 == 0x85 || c as u32 == 0xA0
        || c as u32 == 0x1680 || (0x2000 <= c as u32 <= 0x200A) || c as u32 == 0x2028
        || c as u32 == 0x2029 || c as u32 == 0x202F || c as u32 == 0x205F || c as u32 == 0x3000
}

fn is_ws_char(c: char) -> (r: bool)
    ensures
        r == is_ws(c),
{
    let u = c as u32;
    (0x09 <= u && u <= 0x0D) || u == 0x20 || u == 0x85 || u == 0xA0 || u == 0x1680
        || (0x2000 <= u && u <= 0x200A) || u == 0x2028 || u == 0x2029 || u == 0x202F
        || u == 0x205F || u == 0x3000
}

/// `s` without its leading whitespace.
pub open spec fn trim_start_spec(s: Seq<char>) -> Seq<char>
    decreases s.len(),
{
    if s.len() > 0 && is_ws(s[0]) {
        trim_start_spec(s.drop_first())
    } else {
        s
    }
}

/// `s` without its trailing whitespace.
pub open spec fn trim_end_spec(s: Seq<char>) -> Seq<char>
    decreases s.len(),
{
    if s.len() > 0 && is_ws(s.last()) {
        trim_end_spec(s.drop_last())
    } else {
        s
    }
}

/// `s` without leading and trailing whitespace.
pub open spec fn trim_spec(s: Seq<char>) -> Seq<char> {
    trim_end_spec(trim_start_spec(s))
}

/// Strips leading and trailing whitespace, as `trim_spec` describes.
pub fn trim_str(s: &str) -> (r: String)
    ensures
        r@ == trim_spec(s@),
{
    let n = s.unicode_len();
    let mut a: usize = 0;
    proof {
        assert(s@.subrange(0, n as int) =~= s@);
    }
    while a < n && is_ws_char(s.get_char(a))
        invariant
            a <= n == s@.len(),
            trim_start_spec(s@) == trim_start_spec(s@.subrange(a as int, n as int)),
        decreases n - a,
    {
        proof {
            let rest = s@.subrange(a as int, n as int);
            assert(rest.drop_first() =~= s@.subrange(a as int + 1, n as int));
        }
        a = a + 1;
    }
    proof {
        let rest = s@.subrange(a as int, n as int);
        if a == n {
            assert(rest =~= Seq::<char>::empty());
        }
        assert(trim_start_spec(s@) == rest);
    }
    let mut b: usize = n;
    while b > a && is_ws_char(s.get_char(b - 1))
        invariant
            a <= b <= n == s@.len(),
            trim_end_spec(s@.subrange(a as int, n as int))
                == trim_end_spec(s@.subrange(a as int, b as int)),
        decreases b,
    {
        proof {
            let part = s@.subrange(a as int, b as int);
            assert(part.last() == s@[b as int - 1]);
            assert(part.drop_last() =~= s@.subrange(a as int, b as int - 1));
        }
        b = b - 1;
    }
    proof {
        let part = s@.subrange(a as int, b as int);
        if b == a {
            assert(part =~= Seq::<char>::empty());
        }
        assert(trim_spec(s@) == part);
    }
    String::from_str(s.substring_char(a, b))
}

/// The decimal digit characters.
pub open spec fn digit_char(n: int) -> char {
    if n == 0 { '0' }
    else if n == 1 { '1' }
    else if n == 2 { '2' }
    else if n == 3 { '3' }
    else if n == 4 { '4' }
    else if n == 5 { '5' }
    else if n == 6 { '6' }
    else if n == 7 { '7' }
    else if n == 8 { '8' }
    else { '9' }
}

/// The decimal rendering of `n`, without a sign and without leading zeros
/// (a single `'0'` for zero).
pub open spec fn dec_str(n: int) -> Seq<char>
    decreases n,
{
    if n < 10 {
        seq![digit_char(n)]
    } else {
        dec_str(n / 10).push(digit_char(n % 10))
    }
}

fn digit_str(n: u32) -> (r: &'static str)
    requires
        n < 10,
    ensures
        r@ == seq![digit_char(n as int)],
{
    let r = if n == 0 { "0" }
        else if n == 1 { "1" }
        else if n == 2 { "2" }
        else if n == 3 { "3" }
        else if n == 4 { "4" }
        else if n == 5 { "5" }
        else if n == 6 { "6" }
        else if n == 7 { "7" }
        else if n == 8 { "8" }
        else { "9" };
    proof {
        reveal_strlit("0");
        reveal_strlit("1");
        reveal_strlit("2");
        reveal_strlit("3");
        reveal_strlit("4");
        reveal_strlit("5");
        reveal_strlit("6");
        reveal_strlit("7");
        reveal_strlit("8");
        reveal_strlit("9");
        assert(r@ =~= seq![digit_char(n as int)]);
    }
    r
}

/// Renders `n` in decimal, as `dec_str` describes.
pub fn u32_to_string(n: u32) -> (r: String)
    ensures
        r@ == dec_str(n as int),
    decreases n,
{
    if n < 10 {
        String::from_str(digit_str(n))
    } else {
        proof {
            assert(n as int / 10 < n as int) by (nonlinear_arith)
                requires
                    n >= 10,
            ;
        }
        let mut s = u32_to_string(n / 10);
        s.append(digit_str(n % 10));
        proof {
            assert(dec_str(n as int / 10) + seq![digit_char(n as int % 10)]
                =~= dec_str(n as int / 10).push(digit_char(n as int % 10)));
        }
        s
    }
}

} // verus!
