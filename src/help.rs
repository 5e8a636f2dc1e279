//! Text of the help pages.

use crate::text::{chars_of, push_char, push_str};
use vstd::string::*;
use vstd::prelude::*;

verus! {

/// `s` with each occurrence of `pat`, found from left to right without
/// overlap, replaced by `rep`.
pub open spec fn replace_all(s: Seq<char>, pat: Seq<char>, rep: Seq<char>) -> Seq<char>
    decreases s.len(),
{
    if s.len() == 0 {
        s
    } else if 0 < pat.len() <= s.len() && s.take(pat.len() as int) == pat {
        rep + replace_all(s.skip(pat.len() as int), pat, rep)
    } else {
        seq![s[0]] + replace_all(s.skip(1), pat, rep)
    }
}

fn matches_at(cs: &Vec<char>, i: usize, pat: &Vec<char>) -> (r: bool)
    requires
        i <= cs@.len(),
    ensures
        r == (pat@.len() <= cs@.len() - i && cs@.skip(i as int).take(pat@.len() as int) == pat@),
{
    let n = cs.len();
    if pat.len() > n - i {
        return false;
    }
    let mut k: usize = 0;
    while k < pat.len()
        invariant
            i + pat@.len() <= cs@.len(),
            cs@.len() <= usize::MAX,
            k <= pat@.len(),
            forall|m: int| 0 <= m < k ==> #[trigger] cs@[i + m] == pat@[m],
        decreases pat@.len() - k,
    {
        if cs[i + k] != pat[k] {
            proof {
                assert(cs@.skip(i as int).take(pat@.len() as int)[k as int] != pat@[k as int]);
            }
            return false;
        }
        k = k + 1;
    }
    proof {
        let t = cs@.skip(i as int).take(pat@.len() as int);
        assert forall|m: int| 0 <= m < pat@.len() implies t[m] == pat@[m] by {
            assert(cs@[i + m] == pat@[m]);
        }
        assert(t =~= pat@);
    }
    true
}

/// Replaces each occurrence of `pat` in `s` by `rep`.
pub fn replace(s: &str, pat: &str, rep: &str) -> (r: String)
    ensures
        r@ == replace_all(s@, pat@, rep@),
{
    let cs = chars_of(s);
    let pc = chars_of(pat);
    let mut out = String::new();
    let mut i: usize = 0;
    proof {
        assert(s@.skip(0) =~= s@);
    }
    while i < cs.len()
        invariant
            i <= cs@.len(),
            cs@ == s@,
            pc@ == pat@,
            out@ + replace_all(s@.skip(i as int), pat@, rep@) == replace_all(s@, pat@, rep@),
        decreases cs@.len() - i,
    {
        let ghost rest = s@.skip(i as int);
        if pc.len() > 0 && matches_at(&cs, i, &pc) {
            proof {
                assert(rest.skip(pat@.len() as int) =~= s@.skip(i + pat@.len()));
            }
            push_str(&mut out, rep);
            i = i + pc.len();
            proof {
                assert(out@ + replace_all(s@.skip(i as int), pat@, rep@) =~= replace_all(
                    s@,
                    pat@,
                    rep@,
                ));
            }
        } else {
            proof {
                assert(rest.skip(1) =~= s@.skip(i + 1));
                assert(rest[0] == cs@[i as int]);
            }
            push_char(&mut out, cs[i]);
            i = i + 1;
            proof {
                assert(out@ + replace_all(s@.skip(i as int), pat@, rep@) =~= replace_all(
                    s@,
                    pat@,
                    rep@,
                ));
            }
        }
    }
    proof {
        assert(s@.skip(i as int).len() == 0);
        assert(out@ + replace_all(s@.skip(i as int), pat@, rep@) =~= out@);
    }
    out
}

/// Fills in the placeholders of a help text: `[p]` becomes the command
/// prefix, then `[botname]` the bot's name.
pub fn parse_text(text: &str, prefix: &str, bot_name: &str) -> (r: String)
    ensures
        r@ == replace_all(replace_all(text@, "[p]"@, prefix@), "[botname]"@, bot_name@),
{
    let t = replace(text, "[p]", prefix);
    replace(t.as_str(), "[botname]", bot_name)
}

/// The footer of a help page.
pub fn get_footer(prefix: &str) -> (r: String)
    ensures
        r@ == "Type "@ + prefix@ + "help <command> for more info on a command. You can also type "@
            + prefix@ + "help <category> for more info on a category."@,
{
    let mut r = String::new();
    push_str(&mut r, "Type ");
    push_str(&mut r, prefix);
    push_str(&mut r, "help <command> for more info on a command. You can also type ");
    push_str(&mut r, prefix);
    push_str(&mut r, "help <category> for more info on a category.");
    r
}

/// Position of the first line break in `s`, or its length.
pub open spec fn line_end(s: Seq<char>, i: int) -> int
    decreases s.len() - i,
{
    if 0 <= i < s.len() && s[i] != '\n' {
        line_end(s, i + 1)
    } else {
        i
    }
}

/// The first line of `s`, without its line break and a carriage return
/// before it.
pub open spec fn first_line(s: Seq<char>) -> Seq<char> {
    let l = s.take(line_end(s, 0));
    if l.len() > 0 && l.last() == '\r' {
        l.drop_last()
    } else {
        l
    }
}

/// The number of bytes that `c` takes in UTF-8.
pub open spec fn utf8_width(c: char) -> nat {
    let u = c as u32;
    if u < 0x80 {
        1
    } else if u < 0x800 {
        2
    } else if u < 0x10000 {
        3
    } else {
        4
    }
}

/// The number of bytes that `s` takes in UTF-8.
pub open spec fn utf8_len(s: Seq<char>) -> nat
    decreases s.len(),
{
    if s.len() == 0 {
        0
    } else {
        utf8_width(s[0]) + utf8_len(s.skip(1))
    }
}

/// The longest start of `s` that takes at most `limit` bytes in UTF-8: it
/// ends at byte `limit` when a character ends there, else at the last
/// character boundary before it.
pub open spec fn fitting_prefix(s: Seq<char>, limit: nat) -> Seq<char>
    decreases s.len(),
{
    if s.len() == 0 || utf8_width(s[0]) > limit {
        Seq::empty()
    } else {
        seq![s[0]] + fitting_prefix(s.skip(1), (limit - utf8_width(s[0])) as nat)
    }
}

/// At most seventy bytes: a longer text is cut to its first sixty-seven bytes
/// (fewer where a character straddles that point) and marked with "...".
pub open spec fn shortened(x: Seq<char>) -> Seq<char> {
    if utf8_len(x) > 70 {
        fitting_prefix(x, 67) + "..."@
    } else {
        x
    }
}

fn char_width(c: char) -> (r: usize)
    ensures
        r == utf8_width(c),
        1 <= r <= 4,
{
    let u = c as u32;
    if u < 0x80 {
        1
    } else if u < 0x800 {
        2
    } else if u < 0x10000 {
        3
    } else {
        4
    }
}

/// `cs` takes more than `limit` bytes in UTF-8.
fn longer_than(cs: &Vec<char>, limit: usize) -> (r: bool)
    ensures
        r == (utf8_len(cs@) > limit),
{
    let mut total: usize = 0;
    let mut i: usize = 0;
    proof {
        assert(cs@.skip(0) =~= cs@);
    }
    while i < cs.len()
        invariant
            i <= cs@.len(),
            total <= limit,
            utf8_len(cs@) == total + utf8_len(cs@.skip(i as int)),
        decreases cs@.len() - i,
    {
        let w = char_width(cs[i]);
        proof {
            assert(cs@.skip(i as int).skip(1) =~= cs@.skip(i + 1));
            assert(cs@.skip(i as int)[0] == cs@[i as int]);
        }
        if w > limit - total {
            return true;
        }
        total = total + w;
        i = i + 1;
    }
    false
}

/// The longest start of `cs` that takes at most `limit` bytes in UTF-8.
fn fitting_start(cs: &Vec<char>, limit: usize) -> (r: String)
    ensures
        r@ == fitting_prefix(cs@, limit as nat),
{
    let mut out = String::new();
    let mut budget = limit;
    let mut i: usize = 0;
    proof {
        assert(cs@.skip(0) =~= cs@);
    }
    while i < cs.len()
        invariant
            i <= cs@.len(),
            fitting_prefix(cs@, limit as nat) == out@ + fitting_prefix(
                cs@.skip(i as int),
                budget as nat,
            ),
        decreases cs@.len() - i,
    {
        let c = cs[i];
        let w = char_width(c);
        proof {
            assert(cs@.skip(i as int).skip(1) =~= cs@.skip(i + 1));
            assert(cs@.skip(i as int)[0] == c);
        }
        if w > budget {
            proof {
                assert(out@ + fitting_prefix(cs@.skip(i as int), budget as nat) =~= out@);
            }
            return out;
        }
        push_char(&mut out, c);
        budget = budget - w;
        i = i + 1;
        proof {
            assert(out@ + fitting_prefix(cs@.skip(i as int), budget as nat) =~= fitting_prefix(
                cs@,
                limit as nat,
            ));
        }
    }
    proof {
        assert(out@ + fitting_prefix(cs@.skip(i as int), budget as nat) =~= out@);
    }
    out
}

pub open spec fn description_spec(
    description: Option<Seq<char>>,
    about_none: bool,
    bot_name: Seq<char>,
    prefix: Seq<char>,
) -> Seq<char> {
    match description {
        Some(d) => if d.len() == 0 {
            "No description."@
        } else {
            shortened(
                replace_all(replace_all(first_line(d), "[p]"@, prefix), "[botname]"@, bot_name),
            )
        },
        None => if about_none {
            "No description."@
        } else {
            Seq::empty()
        },
    }
}

fn copy_prefix(cs: &Vec<char>, n: usize) -> (r: String)
    requires
        n <= cs@.len(),
    ensures
        r@ == cs@.take(n as int),
{
    let mut r = String::new();
    let mut i: usize = 0;
    while i < n
        invariant
            i <= n <= cs@.len(),
            r@ == cs@.take(i as int),
        decreases n - i,
    {
        push_char(&mut r, cs[i]);
        i = i + 1;
        proof {
            assert(r@ =~= cs@.take(i as int));
        }
    }
    r
}

fn first_line_of(d: &str) -> (r: String)
    ensures
        r@ == first_line(d@),
{
    let cs = chars_of(d);
    let mut e: usize = 0;
    proof {
        assert(line_end(d@, 0) == line_end(d@, 0));
    }
    while e < cs.len() && cs[e] != '\n'
        invariant
            e <= cs@.len(),
            cs@ == d@,
            line_end(d@, e as int) == line_end(d@, 0),
        decreases cs@.len() - e,
    {
        e = e + 1;
    }
    let l = if e > 0 && cs[e - 1] == '\r' {
        e - 1
    } else {
        e
    };
    let r = copy_prefix(&cs, l);
    proof {
        let t = d@.take(e as int);
        if e > 0 && cs@[e - 1] == '\r' {
            assert(t.last() == cs@[e - 1]);
            assert(t.drop_last() =~= cs@.take(l as int));
        } else {
            assert(t =~= cs@.take(l as int));
        }
    }
    r
}

/// The one-line description of a command or category in a help listing.
pub fn format_description(
    description: Option<&str>,
    about_none: bool,
    bot_name: &str,
    prefix: &str,
) -> (r: String)
    ensures
        r@ == description_spec(
            match description {
                Some(d) => Some(d@),
                None => None,
            },
            about_none,
            bot_name@,
            prefix@,
        ),
{
    match description {
        Some(d) => {
            if d.unicode_len() == 0 {
                let mut r = String::new();
                push_str(&mut r, "No description.");
                r
            } else {
                let line = first_line_of(d);
                let x = parse_text(line.as_str(), prefix, bot_name);
                let xs = chars_of(x.as_str());
                if longer_than(&xs, 70) {
                    let mut r = fitting_start(&xs, 67);
                    push_str(&mut r, "...");
                    r
                } else {
                    x
                }
            }
        },
        None => {
            let mut r = String::new();
            if about_none {
                push_str(&mut r, "No description.");
            } else {
                proof {
                    assert(r@ =~= Seq::<char>::empty());
                }
            }
            r
        },
    }
}

pub open spec fn sum(s: Seq<usize>) -> int
    decreases s.len(),
{
    if s.len() == 0 {
        0
    } else {
        sum(s.drop_last()) + s.last()
    }
}

/// The grouping of fields into pages after the first `lens.len()` fields:
/// finished groups, the group being filled, and its number of characters. A
/// field joins the group being filled while that group is empty of
/// characters, under `max_chars`, or among the first two fields; otherwise it
/// starts a new group.
pub open spec fn grouping(lens: Seq<usize>, max_chars: int) -> (Seq<Seq<int>>, Seq<int>, int)
    decreases lens.len(),
{
    if lens.len() == 0 {
        (Seq::empty(), Seq::empty(), 0)
    } else {
        let (done, current, count) = grouping(lens.drop_last(), max_chars);
        let i = lens.len() - 1;
        if count == 0 || count < max_chars || i < 2 {
            (done, current.push(i), count + lens.last())
        } else {
            (done.push(current), seq![i], lens.last() as int)
        }
    }
}

/// The groups of field positions, each group a page.
pub open spec fn groups_of_fields(lens: Seq<usize>, max_chars: int) -> Seq<Seq<int>> {
    let (done, current, _) = grouping(lens, max_chars);
    if current.len() > 0 {
        done.push(current)
    } else {
        done
    }
}

proof fn lemma_grouping_count(lens: Seq<usize>, max_chars: int)
    ensures
        0 <= grouping(lens, max_chars).2 <= sum(lens),
        grouping(lens, max_chars).1.len() > 0 || lens.len() == 0,
    decreases lens.len(),
{
    if lens.len() > 0 {
        lemma_grouping_count(lens.drop_last(), max_chars);
    }
}

proof fn lemma_sum_prefix(lens: Seq<usize>, i: int)
    requires
        0 <= i <= lens.len(),
    ensures
        sum(lens.take(i)) <= sum(lens),
    decreases lens.len() - i,
{
    if i < lens.len() {
        lemma_sum_prefix(lens, i + 1);
        assert(lens.take(i + 1).drop_last() =~= lens.take(i));
    } else {
        assert(lens.take(i) =~= lens);
    }
}

/// Splits fields of the given lengths (name and value together) into pages
/// of about `max_chars` characters; each page lists field positions.
pub fn group_embed_fields(lens: &Vec<usize>, max_chars: usize) -> (r: Vec<Vec<usize>>)
    requires
        sum(lens@) <= usize::MAX,
    ensures
        r@.len() == groups_of_fields(lens@, max_chars as int).len(),
        forall|g: int|
            0 <= g < r@.len() ==> (#[trigger] r@[g])@.map_values(|i: usize| i as int)
                == groups_of_fields(lens@, max_chars as int)[g],
{
    let mut done: Vec<Vec<usize>> = Vec::new();
    let mut current: Vec<usize> = Vec::new();
    let mut count: usize = 0;
    let mut i: usize = 0;
    while i < lens.len()
        invariant
            i <= lens@.len(),
            sum(lens@) <= usize::MAX,
            ({
                let (d, c, n) = grouping(lens@.take(i as int), max_chars as int);
                &&& done@.len() == d.len()
                &&& forall|g: int|
                    0 <= g < d.len() ==> (#[trigger] done@[g])@.map_values(|k: usize| k as int)
                        == d[g]
                &&& current@.map_values(|k: usize| k as int) == c
                &&& count as int == n
            }),
        decreases lens@.len() - i,
    {
        let ghost prev = lens@.take(i as int);
        let ghost next = lens@.take(i + 1);
        proof {
            assert(next.drop_last() =~= prev);
            assert(next.last() == lens@[i as int]);
            lemma_grouping_count(next, max_chars as int);
            lemma_sum_prefix(lens@, i + 1);
        }
        let f_len = lens[i];
        if count == 0 || count < max_chars || i < 2 {
            count = count + f_len;
            current.push(i);
            proof {
                let (d, c, n) = grouping(prev, max_chars as int);
                assert(current@.map_values(|k: usize| k as int) =~= c.push(i as int));
            }
        } else {
            let ghost old_done = done@;
            done.push(current);
            current = vec![i];
            count = f_len;
            proof {
                let (d, c, n) = grouping(prev, max_chars as int);
                assert(current@.map_values(|k: usize| k as int) =~= seq![i as int]);
                assert forall|g: int| 0 <= g < d.len() + 1 implies (#[trigger] done@[g])@.map_values(
                    |k: usize| k as int,
                ) == d.push(c)[g] by {
                    if g < d.len() {
                        assert(done@[g] == old_done[g]);
                    }
                }
            }
        }
        i = i + 1;
    }
    proof {
        assert(lens@.take(i as int) =~= lens@);
    }
    if current.len() > 0 {
        done.push(current);
    }
    done
}

} // verus!
