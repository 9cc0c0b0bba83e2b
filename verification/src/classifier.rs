//! Static classification of HDL source text: discovery of declared design
//! units (entity declarations written on a single line) and a coarse
//! keyword heuristic that flags a file as a probable self-checking testbench.

use vstd::prelude::*;

use crate::scan::contains_seq;
use crate::scan::find_first;
use crate::scan::first_idx;
use crate::scan::is_space;
use crate::scan::is_space_char;
use crate::scan::lemma_find_first_at;
use crate::scan::lemma_find_first_none;
use crate::scan::lemma_first_idx_at;
use crate::scan::lemma_trim_end_at;
use crate::scan::lemma_trim_end_bounds;
use crate::scan::lemma_trim_start_at;
use crate::scan::lemma_trim_start_bounds;
use crate::scan::occurs_at;
use crate::scan::occurs_here;
use crate::scan::trim_end;
use crate::scan::trim_start;
use crate::scan::trimmed;

verus! {

/// The token that opens a single-line entity declaration.
pub open spec fn entity_kw() -> Seq<char> {
    "entity "@
}

/// The token that must follow the declared name on the same line.
pub open spec fn is_kw() -> Seq<char> {
    " is "@
}

/// A line with its trailing carriage return removed, as line splitting does
/// for lines that end at a line feed.
pub open spec fn strip_cr(l: Seq<char>) -> Seq<char> {
    if l.len() > 0 && l.last() == '\r' { l.drop_last() } else { l }
}

/// The lines of `s`: segments separated by line feeds, each with a trailing
/// carriage return removed; a final line-ending is optional and produces no
/// extra empty line.
pub open spec fn split_lines(s: Seq<char>) -> Seq<Seq<char>>
    decreases s.len(),
{
    if s.len() == 0 {
        Seq::empty()
    } else {
        let i = first_idx(s, '\n');
        if 0 <= i && i < s.len() {
            seq![strip_cr(s.take(i))] + split_lines(s.skip(i + 1))
        } else {
            seq![s]
        }
    }
}

/// The design-unit name declared by `line`, if the trimmed line starts with
/// the entity token and carries the `is` token later on the same line: the
/// trimmed text strictly between the two tokens.
pub open spec fn entity_of_line(line: Seq<char>) -> Option<Seq<char>> {
    let t = trimmed(line);
    if t.len() >= entity_kw().len() && t.take(entity_kw().len() as int) == entity_kw() {
        let rest = t.skip(entity_kw().len() as int);
        match find_first(rest, is_kw()) {
            Some(i) => Some(trimmed(rest.take(i))),
            None => None,
        }
    } else {
        None
    }
}

/// The names declared by a sequence of lines, in line order, duplicates kept.
pub open spec fn names_in_lines(lines: Seq<Seq<char>>) -> Seq<Seq<char>>
    decreases lines.len(),
{
    if lines.len() == 0 {
        Seq::empty()
    } else {
        (match entity_of_line(lines[0]) {
            Some(n) => seq![n],
            None => Seq::<Seq<char>>::empty(),
        }) + names_in_lines(lines.drop_first())
    }
}

/// All design-unit names declared in `text`, in file order.
pub open spec fn entity_names(text: Seq<char>) -> Seq<Seq<char>> {
    names_in_lines(split_lines(text))
}

/// The testbench heuristic: `text` contains a simulation-stop idiom or one of
/// the keywords `assert`, `wait`, `report` anywhere, case-sensitively.
pub open spec fn is_testbench_text(text: Seq<char>) -> bool {
    contains_seq(text, "std.env.stop"@) || contains_seq(text, "assert"@) || contains_seq(
        text,
        "wait"@,
    ) || contains_seq(text, "report"@)
}

/// The names contributed by two runs of lines laid end to end are the names
/// of the first run followed by the names of the second.
pub proof fn lemma_names_in_lines_concat(a: Seq<Seq<char>>, b: Seq<Seq<char>>)
    ensures
        names_in_lines(a + b) == names_in_lines(a) + names_in_lines(b),
    decreases a.len(),
{
    if a.len() == 0 {
        assert(a + b =~= b);
        assert(names_in_lines(a).len() == 0);
        assert(names_in_lines(a) + names_in_lines(b) =~= names_in_lines(b));
    } else {
        assert((a + b)[0] == a[0]);
        assert((a + b).drop_first() =~= a.drop_first() + b);
        lemma_names_in_lines_concat(a.drop_first(), b);
        let head = match entity_of_line(a[0]) {
            Some(n) => seq![n],
            None => Seq::<Seq<char>>::empty(),
        };
        assert(names_in_lines(a + b) == head + (names_in_lines(a.drop_first()) + names_in_lines(
            b,
        )));
        assert(head + (names_in_lines(a.drop_first()) + names_in_lines(b)) =~= (head
            + names_in_lines(a.drop_first())) + names_in_lines(b));
    }
}

/// Law: a line that declares an entity contributes exactly its name to the
/// detected sequence, at the position given by the number of declaring lines
/// above it — discovery preserves line order.
pub proof fn lemma_declared_name_position(text: Seq<char>, i: int)
    requires
        0 <= i < split_lines(text).len(),
        entity_of_line(split_lines(text)[i]) is Some,
    ensures
        ({
            let names = entity_names(text);
            let pos = names_in_lines(split_lines(text).take(i)).len() as int;
            pos < names.len() && names[pos] == entity_of_line(split_lines(text)[i])->0
        }),
{
    let lines = split_lines(text);
    let nm = entity_of_line(lines[i])->0;
    assert(lines.take(i) + lines.skip(i) =~= lines);
    lemma_names_in_lines_concat(lines.take(i), lines.skip(i));
    assert(lines.skip(i)[0] == lines[i]);
    assert(names_in_lines(lines.skip(i)) == seq![nm] + names_in_lines(lines.skip(i).drop_first()));
    let pre = names_in_lines(lines.take(i));
    assert(entity_names(text) == pre + (seq![nm] + names_in_lines(lines.skip(i).drop_first())));
    assert((pre + (seq![nm] + names_in_lines(lines.skip(i).drop_first())))[pre.len() as int]
        == nm);
}

/// Law: text in which no line has the single-line declaration shape yields
/// an empty sequence of design-unit names.
pub proof fn lemma_no_declarations_no_names(text: Seq<char>)
    requires
        forall|i: int|
            0 <= i < split_lines(text).len() ==> entity_of_line(
                #[trigger] split_lines(text)[i],
            ) is None,
    ensures
        entity_names(text).len() == 0,
{
    lemma_names_in_lines_none(split_lines(text));
}

proof fn lemma_names_in_lines_none(lines: Seq<Seq<char>>)
    requires
        forall|i: int| 0 <= i < lines.len() ==> entity_of_line(#[trigger] lines[i]) is None,
    ensures
        names_in_lines(lines).len() == 0,
    decreases lines.len(),
{
    if lines.len() > 0 {
        assert(entity_of_line(lines[0]) is None);
        assert forall|i: int| 0 <= i < lines.drop_first().len() implies entity_of_line(
            #[trigger] lines.drop_first()[i],
        ) is None by {
            assert(lines.drop_first()[i] == lines[i + 1]);
        }
        lemma_names_in_lines_none(lines.drop_first());
    }
}

/// Substring search: whether `pat` occurs anywhere in `text`.
fn contains_pat(text: &str, pat: &str) -> (r: bool)
    ensures
        r == contains_seq(text@, pat@),
{
    let n = text.unicode_len();
    let m = pat.unicode_len();
    if m > n {
        assert(forall|k: int| !occurs_at(text@, pat@, k));
        return false;
    }
    let mut i: usize = 0;
    while i <= n - m
        invariant
            0 <= i <= n - m + 1,
            m <= n,
            n == text@.len(),
            m == pat@.len(),
            forall|k: int| 0 <= k < i ==> !occurs_at(text@, pat@, k),
        decreases n + 1 - i,
    {
        if occurs_here(text, pat, i) {
            assert(occurs_at(text@, pat@, i as int));
            return true;
        }
        i += 1;
    }
    assert forall|k: int| !occurs_at(text@, pat@, k) by {
        if k >= i {
            assert(k + pat@.len() > text@.len());
        }
    }
    false
}

/// Finds the first occurrence of the `is` token at or after `lo` that ends
/// by `hi`, scanning left to right.
fn find_is_from(text: &str, lo: usize, hi: usize) -> (r: Option<usize>)
    requires
        lo <= hi,
        hi as int <= text@.len(),
    ensures
        match r {
            Some(fpos) => lo <= fpos && fpos + 4 <= hi && occurs_at(text@, " is "@, fpos as int)
                && (forall|k: int| lo <= k < fpos ==> !occurs_at(text@, " is "@, k)),
            None => forall|k: int| lo <= k && k + 4 <= hi ==> !occurs_at(text@, " is "@, k),
        },
{
    if hi - lo < 4 {
        return None;
    }
    let mut i: usize = lo;
    while i <= hi - 4
        invariant
            lo <= i <= hi,
            lo + 4 <= hi,
            hi as int <= text@.len(),
            forall|k: int| lo <= k < i ==> !occurs_at(text@, " is "@, k),
        decreases hi - i,
    {
        proof {
            reveal_strlit(" is ");
        }
        if occurs_here(text, " is ", i) {
            return Some(i);
        }
        i += 1;
    }
    None
}

/// Extracts the declared entity name, if any, from the line of `text` that
/// occupies the character range `[ls, le)`.
fn line_entity(text: &str, ls: usize, le: usize) -> (r: Option<String>)
    requires
        ls <= le,
        le as int <= text@.len(),
    ensures
        ({
            let line = text@.subrange(ls as int, le as int);
            match r {
                Some(nm) => entity_of_line(line) == Some(nm@),
                None => entity_of_line(line) is None,
            }
        }),
{
    let ghost line = text@.subrange(ls as int, le as int);
    let mut a: usize = ls;
    while a < le && is_space(text.get_char(a))
        invariant
            ls <= a <= le,
            le as int <= text@.len(),
            forall|k: int| ls <= k < a ==> is_space_char(text@[k]),
        decreases le - a,
    {
        a += 1;
    }
    proof {
        assert forall|k: int| 0 <= k < a - ls implies is_space_char(line[k]) by {
            assert(is_space_char(text@[ls + k]));
        }
        lemma_trim_start_at(line, a as int - ls as int);
    }
    if a == le {
        proof {
            lemma_trim_end_bounds(line);
            assert(trimmed(line).len() == 0);
            reveal_strlit("entity ");
            assert(entity_of_line(line) is None);
        }
        return None;
    }
    let mut b: usize = le;
    while b > a && is_space(text.get_char(b - 1))
        invariant
            a <= b <= le,
            le as int <= text@.len(),
            forall|k: int| b <= k < le ==> is_space_char(text@[k]),
        decreases b,
    {
        b -= 1;
    }
    proof {
        assert(b > a) by {
            if b == a {
                assert(is_space_char(text@[a as int]));
            }
        }
        assert forall|k: int| b - ls <= k < line.len() implies is_space_char(line[k]) by {
            assert(is_space_char(text@[ls + k]));
        }
        assert(line[b - ls - 1] == text@[b as int - 1]);
        lemma_trim_end_at(line, b as int - ls as int);
    }
    let ghost t = trimmed(line);
    proof {
        assert(t =~= text@.subrange(a as int, b as int));
    }
    if b - a < 7 {
        proof {
            reveal_strlit("entity ");
            assert(entity_of_line(line) is None);
        }
        return None;
    }
    proof {
        reveal_strlit("entity ");
        reveal_strlit(" is ");
    }
    if !occurs_here(text, "entity ", a) {
        proof {
            if t.take(entity_kw().len() as int) == entity_kw() {
                assert forall|k: int| 0 <= k < entity_kw().len() implies text@[a + k]
                    == "entity "@[k] by {
                    assert(t.take(entity_kw().len() as int)[k] == entity_kw()[k]);
                }
                assert(occurs_at(text@, "entity "@, a as int));
            }
            assert(entity_of_line(line) is None);
        }
        return None;
    }
    proof {
        assert forall|k: int| 0 <= k < 7 implies t.take(7)[k] == entity_kw()[k] by {
            assert(text@[a + k] == "entity "@[k]);
        }
        assert(t.take(entity_kw().len() as int) =~= entity_kw());
    }
    let ghost rest = t.skip(7);
    proof {
        assert(rest =~= text@.subrange(a as int + 7, b as int));
    }
    let fopt = find_is_from(text, a + 7, b);
    if fopt.is_none() {
        proof {
            reveal_strlit("entity ");
            reveal_strlit(" is ");
            assert forall|k: int| !occurs_at(rest, is_kw(), k) by {
                if 0 <= k && k + is_kw().len() <= rest.len() {
                    assert(a + 7 + k + 4 <= b as int);
                    assert(!occurs_at(text@, " is "@, a + 7 + k));
                    if occurs_at(rest, is_kw(), k) {
                        assert forall|q: int| 0 <= q < is_kw().len() implies text@[a + 7 + k + q]
                            == " is "@[q] by {
                            assert(rest[k + q] == is_kw()[q]);
                        }
                    }
                }
            }
            lemma_find_first_none(rest, is_kw());
            assert(entity_of_line(line) is None);
        }
        return None;
    }
    let f = fopt.unwrap();
    let ghost fr = f as int - (a as int + 7);
    proof {
        reveal_strlit("entity ");
        reveal_strlit(" is ");
        assert forall|q: int| 0 <= q < is_kw().len() implies rest[fr + q] == is_kw()[q] by {
            assert(text@[f + q] == " is "@[q]);
        }
        assert(occurs_at(rest, is_kw(), fr));
        assert forall|k: int| 0 <= k < fr implies !occurs_at(rest, is_kw(), k) by {
            assert(!occurs_at(text@, " is "@, a + 7 + k));
            if occurs_at(rest, is_kw(), k) {
                assert forall|q: int| 0 <= q < is_kw().len() implies text@[a + 7 + k + q]
                    == " is "@[q] by {
                    assert(rest[k + q] == is_kw()[q]);
                }
            }
        }
        lemma_find_first_at(rest, is_kw(), fr);
    }
    let ghost namepart = rest.take(fr);
    proof {
        assert(namepart =~= text@.subrange(a as int + 7, f as int));
    }
    let mut c: usize = a + 7;
    while c < f && is_space(text.get_char(c))
        invariant
            a + 7 <= c <= f,
            f as int <= text@.len(),
            forall|k: int| a + 7 <= k < c ==> is_space_char(text@[k]),
        decreases f - c,
    {
        c += 1;
    }
    proof {
        assert forall|k: int| 0 <= k < c - (a + 7) implies is_space_char(namepart[k]) by {
            assert(is_space_char(text@[a + 7 + k]));
        }
        lemma_trim_start_at(namepart, c as int - (a as int + 7));
    }
    if c == f {
        proof {
            reveal_strlit("entity ");
            reveal_strlit(" is ");
            lemma_trim_end_bounds(namepart);
            assert(trimmed(namepart).len() == 0);
            assert(trimmed(namepart) =~= text@.subrange(c as int, c as int));
        }
        let nm = String::from_str(text.substring_char(c, c));
        proof {
            assert(entity_of_line(line) == Some(trimmed(namepart)));
        }
        return Some(nm);
    }
    let mut d: usize = f;
    while d > c && is_space(text.get_char(d - 1))
        invariant
            c <= d <= f,
            f as int <= text@.len(),
            forall|k: int| d <= k < f ==> is_space_char(text@[k]),
        decreases d,
    {
        d -= 1;
    }
    proof {
        reveal_strlit("entity ");
        reveal_strlit(" is ");
        assert(d > c) by {
            if d == c {
                assert(is_space_char(text@[c as int]));
            }
        }
        assert forall|k: int| d - (a + 7) <= k < namepart.len() implies is_space_char(
            namepart[k],
        ) by {
            assert(is_space_char(text@[a + 7 + k]));
        }
        assert(namepart[d - (a + 7) - 1] == text@[d as int - 1]);
        lemma_trim_end_at(namepart, d as int - (a as int + 7));
        assert(trimmed(namepart) =~= text@.subrange(c as int, d as int));
    }
    let nm = String::from_str(text.substring_char(c, d));
    proof {
        assert(entity_of_line(line) == Some(trimmed(namepart)));
    }
    Some(nm)
}

/// Scans `text` line by line and collects every declared design-unit name,
/// in file order, duplicates kept. Declarations split across lines are not
/// detected: the entity token and the `is` token must share a line. This is
/// a documented precision limit of the classifier, not tightened here.
pub fn detect_entities(text: &str) -> (r: Vec<String>)
    ensures
        r.deep_view() == entity_names(text@),
{
    let n = text.unicode_len();
    let mut r: Vec<String> = Vec::new();
    let mut ls: usize = 0;
    proof {
        assert(text@.skip(0) =~= text@);
        assert(r.deep_view() =~= Seq::<Seq<char>>::empty());
        assert(r.deep_view() + names_in_lines(split_lines(text@)) =~= names_in_lines(
            split_lines(text@),
        ));
    }
    while ls < n
        invariant
            0 <= ls <= n,
            n == text@.len(),
            r.deep_view() + names_in_lines(split_lines(text@.skip(ls as int))) == entity_names(
                text@,
            ),
        decreases n - ls,
    {
        let mut j: usize = ls;
        while j < n && text.get_char(j) != '\n'
            invariant
                ls <= j <= n,
                n == text@.len(),
                forall|k: int| ls <= k < j ==> text@[k] != '\n',
            decreases n - j,
        {
            j += 1;
        }
        let le = if j < n && j > ls {
            if text.get_char(j - 1) == '\r' {
                j - 1
            } else {
                j
            }
        } else {
            j
        };
        let ghost suffix = text@.skip(ls as int);
        let ghost line = text@.subrange(ls as int, le as int);
        proof {
            assert forall|k: int| 0 <= k < j - ls implies suffix[k] != '\n' by {
                assert(text@[ls + k] != '\n');
            }
            lemma_first_idx_at(suffix, '\n', j as int - ls as int);
            if j < n {
                assert(suffix.take(j as int - ls as int) =~= text@.subrange(ls as int, j as int));
                assert(strip_cr(suffix.take(j as int - ls as int)) =~= line);
                assert(suffix.skip(j as int - ls as int + 1) =~= text@.skip(j as int + 1));
                assert(split_lines(suffix) == seq![line] + split_lines(text@.skip(j as int + 1)));
            } else {
                assert(suffix =~= line);
                assert(split_lines(suffix) == seq![line]);
            }
        }
        let name_opt = line_entity(text, ls, le);
        let ghost old_names = r.deep_view();
        let ghost head = match entity_of_line(line) {
            Some(nm) => seq![nm],
            None => Seq::<Seq<char>>::empty(),
        };
        let ghost next_ls: int = if j < n {
            j as int + 1
        } else {
            n as int
        };
        let ghost rest_names = names_in_lines(split_lines(text@.skip(next_ls)));
        proof {
            let lines_suffix = split_lines(suffix);
            assert(lines_suffix[0] == line);
            if j < n {
                assert(lines_suffix.drop_first() =~= split_lines(text@.skip(j as int + 1)));
                assert(names_in_lines(lines_suffix) == head + rest_names);
            } else {
                assert(text@.skip(n as int).len() == 0);
                assert(rest_names =~= Seq::<Seq<char>>::empty());
                assert(lines_suffix.drop_first() =~= Seq::<Seq<char>>::empty());
                assert(names_in_lines(lines_suffix.drop_first()).len() == 0);
                assert(names_in_lines(lines_suffix) =~= head + rest_names);
            }
        }
        match name_opt {
            Some(nm) => {
                proof {
                    assert(entity_of_line(line) == Some(nm@));
                }
                r.push(nm);
                proof {
                    assert(r.deep_view() =~= old_names + head);
                }
            },
            None => {
                proof {
                    assert(r.deep_view() =~= old_names + head);
                }
            },
        }
        proof {
            assert((old_names + head) + rest_names =~= old_names + (head + rest_names));
        }
        if j < n {
            ls = j + 1;
        } else {
            ls = n;
        }
    }
    proof {
        assert(text@.skip(n as int).len() == 0);
        assert(names_in_lines(split_lines(text@.skip(n as int))).len() == 0);
        assert(r.deep_view() + names_in_lines(split_lines(text@.skip(n as int))) =~= r.deep_view());
    }
    r
}

/// Decides whether `text` looks like a self-checking testbench. This is a
/// coarse, documented approximation: any occurrence of the keywords counts,
/// with no word-boundary checking, so ordinary designs that use `wait` for
/// clocking are flagged too.
pub fn is_testbench(text: &str) -> (r: bool)
    ensures
        r == is_testbench_text(text@),
{
    contains_pat(text, "std.env.stop") || contains_pat(text, "assert") || contains_pat(
        text,
        "wait",
    ) || contains_pat(text, "report")
}

} // verus!
