//! Character classes and small string-building helpers shared by the parser
//! and the renderers.

use vstd::prelude::*;
use vstd::string::*;

verus! {

/// Unicode `White_Space`: the characters that separate words.
pub open spec fn is_space_spec(c: char) -> bool {
    let u = c as u32;
    (0x09 <= u && u <= 0x0d) || u == 0x20 || u == 0x85 || u == 0xa0 || u == 0x1680 || (0x2000
        <= u && u <= 0x200a) || u == 0x2028 || u == 0x2029 || u == 0x202f || u == 0x205f || u
        == 0x3000
}

pub open spec fn upper_spec(c: char) -> char {
    if 'a' <= c && c <= 'z' {
        ((c as u32) - 32) as char
    } else {
        c
    }
}

pub open spec fn lower_spec(c: char) -> char {
    if 'A' <= c && c <= 'Z' {
        ((c as u32) + 32) as char
    } else {
        c
    }
}

#[verifier::when_used_as_spec(is_space_spec)]
pub fn is_space(c: char) -> (r: bool)
    ensures
        r == is_space_spec(c),
{
    let u = c as u32;
    (0x09 <= u && u <= 0x0d) || u == 0x20 || u == 0x85 || u == 0xa0 || u == 0x1680 || (0x2000
        <= u && u <= 0x200a) || u == 0x2028 || u == 0x2029 || u == 0x202f || u == 0x205f || u
        == 0x3000
}

pub fn ascii_upper(c: char) -> (r: char)
    ensures
        r == upper_spec(c),
{
    if 'a' <= c && c <= 'z' {
        ((c as u8) - 32) as char
    } else {
        c
    }
}

pub fn ascii_lower(c: char) -> (r: char)
    ensures
        r == lower_spec(c),
{
    if 'A' <= c && c <= 'Z' {
        ((c as u8) + 32) as char
    } else {
        c
    }
}

/// Relies on `String::push`: appends one character.
#[verifier::external_body]
pub(crate) fn push_char(s: &mut String, c: char)
    ensures
        final(s)@ == old(s)@.push(c),
{
    s.push(c)
}

/// The words of `s`: its maximal runs of non-space characters, in order.
pub open spec fn words(s: Seq<char>) -> Seq<Seq<char>>
    decreases s.len(),
{
    if s.len() == 0 {
        Seq::empty()
    } else {
        let w = words(s.drop_last());
        let c = s.last();
        if is_space_spec(c) {
            w
        } else if s.len() >= 2 && !is_space_spec(s[s.len() - 2]) {
            w.drop_last().push(w.last().push(c))
        } else {
            w.push(seq![c])
        }
    }
}

/// A word with its first character upper-cased and the others lower-cased.
pub open spec fn capitalize_word(w: Seq<char>) -> Seq<char> {
    if w.len() == 0 {
        w
    } else {
        seq![upper_spec(w[0])] + w.skip(1).map_values(|c: char| lower_spec(c))
    }
}

/// Capitalized words joined by single spaces.
pub open spec fn join_capitalized(ws: Seq<Seq<char>>) -> Seq<char>
    decreases ws.len(),
{
    if ws.len() == 0 {
        Seq::empty()
    } else if ws.len() == 1 {
        capitalize_word(ws[0])
    } else {
        join_capitalized(ws.drop_last()) + seq![' '] + capitalize_word(ws.last())
    }
}

pub open spec fn capitalize_spec(s: Seq<char>) -> Seq<char> {
    join_capitalized(words(s))
}

proof fn lemma_words_nonempty(s: Seq<char>)
    ensures
        forall|k: int| 0 <= k < words(s).len() ==> #[trigger] words(s)[k].len() > 0,
        s.len() > 0 && !is_space_spec(s.last()) ==> words(s).len() > 0,
    decreases s.len(),
{
    if s.len() > 0 {
        let p = s.drop_last();
        lemma_words_nonempty(p);
        let w = words(p);
        let c = s.last();
        if !is_space_spec(c) && s.len() >= 2 && !is_space_spec(s[s.len() - 2]) {
            assert(p.last() == s[s.len() - 2]);
            let w2 = w.drop_last().push(w.last().push(c));
            assert forall|k: int| 0 <= k < w2.len() implies #[trigger] w2[k].len() > 0 by {
                if k < w.len() - 1 {
                    assert(w2[k] == w[k]);
                }
            }
        } else if !is_space_spec(c) {
            let w2 = w.push(seq![c]);
            assert forall|k: int| 0 <= k < w2.len() implies #[trigger] w2[k].len() > 0 by {
                if k < w.len() {
                    assert(w2[k] == w[k]);
                }
            }
        }
    }
}

proof fn lemma_capitalize_extend(w: Seq<char>, c: char)
    requires
        w.len() > 0,
    ensures
        capitalize_word(w.push(c)) == capitalize_word(w).push(lower_spec(c)),
{
    assert(w.push(c).skip(1) =~= w.skip(1).push(c));
    assert(capitalize_word(w.push(c)) =~= capitalize_word(w).push(lower_spec(c)));
}

/// The characters of `s`, in order.
pub fn chars_of(s: &str) -> (r: Vec<char>)
    ensures
        r@ == s@,
{
    let n = s.unicode_len();
    let mut r: Vec<char> = Vec::new();
    let mut i: usize = 0;
    while i < n
        invariant
            n == s@.len(),
            i <= n,
            r@ == s@.take(i as int),
        decreases n - i,
    {
        r.push(s.get_char(i));
        i = i + 1;
        proof {
            assert(r@ =~= s@.take(i as int));
        }
    }
    proof {
        assert(s@.take(n as int) =~= s@);
    }
    r
}

/// `capitalize` applied to the characters `cs[lo..hi]`.
pub fn capitalize_range(cs: &Vec<char>, lo: usize, hi: usize) -> (r: String)
    requires
        lo <= hi <= cs@.len(),
    ensures
        r@ == capitalize_spec(cs@.subrange(lo as int, hi as int)),
{
    let ghost s = cs@.subrange(lo as int, hi as int);
    let mut out = String::new();
    let mut i: usize = lo;
    let mut have_word = false;
    let mut after_space = true;
    while i < hi
        invariant
            lo <= i <= hi <= cs@.len(),
            s == cs@.subrange(lo as int, hi as int),
            out@ == join_capitalized(words(s.take(i - lo))),
            have_word == (words(s.take(i - lo)).len() > 0),
            after_space == (i == lo || is_space_spec(cs@[i - 1])),
        decreases hi - i,
    {
        let c = cs[i];
        let ghost prev = s.take(i - lo);
        let ghost next = s.take(i - lo + 1);
        proof {
            assert(next.drop_last() =~= prev);
            assert(next.last() == c);
            lemma_words_nonempty(prev);
        }
        if is_space(c) {
            after_space = true;
        } else if after_space {
            if have_word {
                push_char(&mut out, ' ');
            }
            push_char(&mut out, ascii_upper(c));
            proof {
                let ws = words(prev);
                assert(words(next) == ws.push(seq![c]));
                assert(ws.push(seq![c]).drop_last() =~= ws);
                assert(capitalize_word(seq![c]) =~= seq![upper_spec(c)]);
                assert(out@ =~= join_capitalized(words(next)));
            }
            have_word = true;
            after_space = false;
        } else {
            push_char(&mut out, ascii_lower(c));
            proof {
                let ws = words(prev);
                assert(cs@[i - 1] == prev[prev.len() - 1]);
                assert(ws.len() > 0);
                assert(words(next) == ws.drop_last().push(ws.last().push(c)));
                lemma_capitalize_extend(ws.last(), c);
                let ws2 = ws.drop_last().push(ws.last().push(c));
                assert(ws2.drop_last() =~= ws.drop_last());
                if ws.len() > 1 {
                    assert(ws.drop_last().push(ws.last()) =~= ws);
                }
                assert(out@ =~= join_capitalized(ws2));
            }
        }
        i = i + 1;
    }
    proof {
        assert(s.take(hi - lo) =~= s);
    }
    out
}

/// Upper-cases the first letter of each word and lower-cases the rest (ASCII
/// letters only), and joins the words with single spaces.
pub fn capitalize(s: &str) -> (r: String)
    ensures
        r@ == capitalize_spec(s@),
{
    let cs = chars_of(s);
    proof {
        assert(cs@.subrange(0, cs@.len() as int) =~= s@);
    }
    capitalize_range(&cs, 0, cs.len())
}

/// The decimal digits of `n`, most significant first.
pub open spec fn decimal(n: nat) -> Seq<char>
    decreases n,
{
    if n < 10 {
        seq![digit(n)]
    } else {
        decimal(n / 10).push(digit(n % 10))
    }
}

pub open spec fn digit(n: nat) -> char {
    ((n + 48) as u32) as char
}

/// Appends the decimal digits of `n`.
pub fn push_decimal(s: &mut String, n: u64)
    ensures
        final(s)@ == old(s)@ + decimal(n as nat),
    decreases n,
{
    if n >= 10 {
        push_decimal(s, n / 10);
    }
    push_char(s, (((n % 10) as u8) + 48) as char);
    proof {
        assert(s@ =~= old(s)@ + decimal(n as nat));
    }
}

/// Appends the characters of `t`.
pub fn push_str(s: &mut String, t: &str)
    ensures
        final(s)@ == old(s)@ + t@,
{
    s.append(t);
}

} // verus!
