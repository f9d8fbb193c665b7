//! Selecting the lines of a text that contain a query, with or without
//! regard to case.

use crate::pattern::{contains, occurs_at, occurs_in};
use crate::text::{chars_of, texts};
use vstd::prelude::*;
use vstd::string::*;
use vstd::utf8::is_ascii_chars;

verus! {

/// What `str::to_lowercase` of the standard library returns for the text `s`.
pub uninterp spec fn lowercase(s: Seq<char>) -> Seq<char>;

/// `str::to_lowercase` of the standard library. Its result depends on the
/// characters of `s` alone and follows Unicode's tables, which are not
/// written out here: the contract only gives the result its name.
#[verifier::external_body]
fn to_lowercase(s: &str) -> (low: String)
    ensures
        low@ == lowercase(s@),
{
    s.to_lowercase()
}

/// The lower-case form of an ASCII capital, and any other character itself.
pub open spec fn ascii_lower(c: char) -> char {
    if 'A' <= c <= 'Z' {
        ((c as int) + 32) as char
    } else {
        c
    }
}

/// The text that stands for `s` when case is not regarded: an ASCII text
/// with each capital made small, any other text as the standard library
/// lowers it.
pub open spec fn folded(s: Seq<char>) -> Seq<char> {
    if is_ascii_chars(s) {
        Seq::new(s.len(), |i: int| ascii_lower(s[i]))
    } else {
        lowercase(s)
    }
}

/// Whether a line counts as holding the query: in it as it is written, or,
/// when case is not regarded, after both were folded.
pub open spec fn line_hits(query: Seq<char>, line: Seq<char>, case_sensitive: bool) -> bool {
    if case_sensitive {
        occurs_in(query, line)
    } else {
        occurs_in(folded(query), folded(line))
    }
}

/// `picked` lists, in ascending order and each once, the indices of exactly
/// those lines that hold the query.
pub open spec fn is_selection(
    picked: Seq<usize>,
    query: Seq<char>,
    lines: Seq<Seq<char>>,
    case_sensitive: bool,
) -> bool {
    &&& forall|k: int|
        0 <= k < picked.len() ==> (#[trigger] picked[k]) < lines.len() && line_hits(
            query,
            lines[picked[k] as int],
            case_sensitive,
        )
    &&& forall|j: int, k: int| 0 <= j < k < picked.len() ==> picked[j] < picked[k]
    &&& forall|i: int|
        0 <= i < lines.len() && line_hits(query, #[trigger] lines[i], case_sensitive)
            ==> exists|k: int| 0 <= k < picked.len() && picked[k] == i
}

/// The lower-case form of an ASCII capital, and any other character itself.
fn lower_ascii_char(c: char) -> (low: char)
    ensures
        low == ascii_lower(c),
{
    if 'A' <= c && c <= 'Z' {
        ((c as u8) + 32) as char
    } else {
        c
    }
}

/// The characters that stand for `s` when case is not regarded.
pub fn fold_case(s: &str) -> (low: Vec<char>)
    ensures
        low@ == folded(s@),
{
    if s.is_ascii() {
        let chars = chars_of(s);
        let mut low: Vec<char> = Vec::new();
        let mut i: usize = 0;
        while i < chars.len()
            invariant
                i <= chars.len(),
                low.len() == i,
                forall|j: int| 0 <= j < i ==> low@[j] == ascii_lower(chars@[j]),
            decreases chars.len() - i,
        {
            low.push(lower_ascii_char(chars[i]));
            i += 1;
        }
        proof {
            assert(low@ =~= folded(s@));
        }
        low
    } else {
        let lowered = to_lowercase(s);
        chars_of(lowered.as_str())
    }
}

/// The indices of the lines that hold the query, gathered line by line from
/// the first to the last.
pub open spec fn selected(query: Seq<char>, lines: Seq<Seq<char>>, case_sensitive: bool) -> Seq<
    usize,
>
    decreases lines.len(),
{
    if lines.len() == 0 {
        Seq::<usize>::empty()
    } else {
        let before = selected(query, lines.drop_last(), case_sensitive);
        if line_hits(query, lines.last(), case_sensitive) {
            before.push((lines.len() - 1) as usize)
        } else {
            before
        }
    }
}

/// The indices of the lines that hold the query, in ascending order: as it
/// is written where `case_sensitive` is set, after folding where it is not.
pub fn select(query: &String, contents: &Vec<String>, case_sensitive: bool) -> (picked: Vec<usize>)
    ensures
        picked@ == selected(query@, texts(contents@), case_sensitive),
        is_selection(picked@, query@, texts(contents@), case_sensitive),
{
    let needle = if case_sensitive {
        chars_of(query.as_str())
    } else {
        fold_case(query.as_str())
    };
    let ghost lines = texts(contents@);
    let mut picked: Vec<usize> = Vec::new();
    let mut i: usize = 0;
    proof {
        assert(lines.take(0) =~= Seq::<Seq<char>>::empty());
    }
    while i < contents.len()
        invariant
            i <= contents.len(),
            lines == texts(contents@),
            needle@ == if case_sensitive {
                query@
            } else {
                folded(query@)
            },
            picked@ == selected(query@, lines.take(i as int), case_sensitive),
        decreases contents.len() - i,
    {
        let line = if case_sensitive {
            chars_of(contents[i].as_str())
        } else {
            fold_case(contents[i].as_str())
        };
        proof {
            assert(lines.take(i + 1).drop_last() =~= lines.take(i as int));
            assert(lines.take(i + 1).last() == contents@[i as int]@);
        }
        if contains(line.as_slice(), needle.as_slice()) {
            picked.push(i);
        }
        i += 1;
    }
    proof {
        assert(lines.take(i as int) =~= lines);
        lemma_selected_is_selection(query@, lines, case_sensitive);
    }
    picked
}

/// The indices of the lines that hold the query as it is written.
pub fn search(query: &String, contents: &Vec<String>) -> (picked: Vec<usize>)
    ensures
        picked@ == selected(query@, texts(contents@), true),
        is_selection(picked@, query@, texts(contents@), true),
{
    select(query, contents, true)
}

/// The indices of the lines that hold the query when case is not regarded.
pub fn search_case_insensitive(query: &String, contents: &Vec<String>) -> (picked: Vec<usize>)
    ensures
        picked@ == selected(query@, texts(contents@), false),
        is_selection(picked@, query@, texts(contents@), false),
{
    select(query, contents, false)
}

/// What is gathered line by line is the selection: ascending, each index
/// once, and exactly the lines that hold the query.
pub proof fn lemma_selected_is_selection(
    query: Seq<char>,
    lines: Seq<Seq<char>>,
    case_sensitive: bool,
)
    requires
        lines.len() <= usize::MAX + 1,
    ensures
        is_selection(selected(query, lines, case_sensitive), query, lines, case_sensitive),
    decreases lines.len(),
{
    if lines.len() > 0 {
        let front = lines.drop_last();
        let before = selected(query, front, case_sensitive);
        let picked = selected(query, lines, case_sensitive);
        lemma_selected_is_selection(query, front, case_sensitive);
        assert forall|k: int| 0 <= k < picked.len() implies (#[trigger] picked[k]) < lines.len()
            && line_hits(query, lines[picked[k] as int], case_sensitive) by {
            if k < before.len() {
                assert(picked[k] == before[k]);
                assert(front[before[k] as int] == lines[before[k] as int]);
            }
        }
        assert forall|j: int, k: int| 0 <= j < k < picked.len() implies picked[j] < picked[k] by {
            assert(picked[j] == before[j]);
            if k < before.len() {
                assert(picked[k] == before[k]);
            }
        }
        assert forall|i: int|
            0 <= i < lines.len() && line_hits(
                query,
                #[trigger] lines[i],
                case_sensitive,
            ) implies exists|k: int| 0 <= k < picked.len() && picked[k] == i by {
            if i < front.len() {
                assert(front[i] == lines[i]);
                let k = choose|k: int| 0 <= k < before.len() && before[k] == i;
                assert(picked[k] == i);
            } else {
                assert(picked[picked.len() - 1] == i);
            }
        }
    }
}

/// Each entry of `s` is smaller than the next.
pub open spec fn ascending(s: Seq<usize>) -> bool {
    forall|j: int, k: int| 0 <= j < k < s.len() ==> s[j] < s[k]
}

/// Two ascending sequences with the same members are the same sequence.
pub proof fn lemma_ascending_same_members(a: Seq<usize>, b: Seq<usize>)
    requires
        ascending(a),
        ascending(b),
        forall|x: usize| a.contains(x) <==> b.contains(x),
    ensures
        a == b,
    decreases a.len(),
{
    if a.len() == 0 {
        if b.len() > 0 {
            assert(b.contains(b[0]));
            assert(a.contains(b[0]));
        }
        assert(a =~= b);
    } else {
        let top = a.last();
        assert(a.contains(top));
        assert(b.contains(top));
        let at = choose|k: int| 0 <= k < b.len() && b[k] == top;
        if at < b.len() - 1 {
            assert(b.contains(b.last()));
            assert(a.contains(b.last()));
            let back = choose|k: int| 0 <= k < a.len() && a[k] == b.last();
            assert(a[back] <= top);
            assert(b[at] < b[b.len() - 1]);
        }
        let a0 = a.drop_last();
        let b0 = b.drop_last();
        assert forall|x: usize| a0.contains(x) <==> b0.contains(x) by {
            if a0.contains(x) {
                let k = choose|k: int| 0 <= k < a0.len() && a0[k] == x;
                assert(a[k] == x);
                assert(a.contains(x));
                let m = choose|m: int| 0 <= m < b.len() && b[m] == x;
                assert(x < top);
                assert(b0[m] == x);
            }
            if b0.contains(x) {
                let k = choose|k: int| 0 <= k < b0.len() && b0[k] == x;
                assert(b[k] == x);
                assert(b.contains(x));
                let m = choose|m: int| 0 <= m < a.len() && a[m] == x;
                assert(x < top);
                assert(a0[m] == x);
            }
        }
        lemma_ascending_same_members(a0, b0);
        assert(a =~= a0.push(top));
        assert(b =~= b0.push(top));
    }
}

/// Matching has one answer: two index lists that both select the lines
/// holding the same query among the same lines, in the same mode, are equal.
/// So running the matcher again on the same inputs gives the same list.
pub proof fn lemma_selection_unique(
    first: Seq<usize>,
    second: Seq<usize>,
    query: Seq<char>,
    lines: Seq<Seq<char>>,
    case_sensitive: bool,
)
    requires
        is_selection(first, query, lines, case_sensitive),
        is_selection(second, query, lines, case_sensitive),
    ensures
        first == second,
{
    assert forall|x: usize| first.contains(x) <==> second.contains(x) by {
        if first.contains(x) {
            let k = choose|k: int| 0 <= k < first.len() && first[k] == x;
            assert(line_hits(query, lines[first[k] as int], case_sensitive));
            let m = choose|m: int| 0 <= m < second.len() && second[m] == x as int;
            assert(second[m] == x);
        }
        if second.contains(x) {
            let k = choose|k: int| 0 <= k < second.len() && second[k] == x;
            assert(line_hits(query, lines[second[k] as int], case_sensitive));
            let m = choose|m: int| 0 <= m < first.len() && first[m] == x as int;
            assert(first[m] == x);
        }
    }
    lemma_ascending_same_members(first, second);
}

/// An empty query selects every line: the list is `0, 1, ..` up to the number
/// of lines, in either mode.
pub proof fn lemma_empty_query_selects_all(
    picked: Seq<usize>,
    lines: Seq<Seq<char>>,
    case_sensitive: bool,
)
    requires
        is_selection(picked, Seq::<char>::empty(), lines, case_sensitive),
    ensures
        picked.len() == lines.len(),
        forall|i: int| 0 <= i < picked.len() ==> picked[i] == i,
{
    let none = Seq::<char>::empty();
    assert(folded(none) =~= none);
    assert forall|i: int| 0 <= i < lines.len() implies line_hits(
        none,
        #[trigger] lines[i],
        case_sensitive,
    ) by {
        let line = if case_sensitive {
            lines[i]
        } else {
            folded(lines[i])
        };
        assert(line.subrange(0, 0) =~= none);
        assert(occurs_at(none, line, 0));
    }
    if lines.len() > usize::MAX + 1 {
        let beyond = usize::MAX + 1;
        assert(line_hits(none, lines[beyond], case_sensitive));
        let k = choose|k: int| 0 <= k < picked.len() && picked[k] == beyond;
        assert(picked[k] <= usize::MAX);
    }
    assert forall|x: usize| x < lines.len() implies #[trigger] picked.contains(x) by {
        assert(line_hits(none, lines[x as int], case_sensitive));
        let k = choose|k: int| 0 <= k < picked.len() && picked[k] == x as int;
        assert(picked[k] == x);
    }
    lemma_ascending_covers(picked, lines.len());
}

/// An ascending list that holds exactly the numbers below `n` is the list
/// `0, 1, ..` up to `n`.
proof fn lemma_ascending_covers(picked: Seq<usize>, n: nat)
    requires
        n <= usize::MAX + 1,
        ascending(picked),
        forall|k: int| 0 <= k < picked.len() ==> (#[trigger] picked[k]) < n,
        forall|x: usize| x < n ==> #[trigger] picked.contains(x),
    ensures
        picked.len() == n,
        forall|i: int| 0 <= i < picked.len() ==> picked[i] == i,
{
    let all = Seq::new(n, |i: int| i as usize);
    assert(ascending(all));
    assert(all.len() == n);
    assert(forall|i: int| 0 <= i < n ==> all[i] == i);
    assert forall|x: usize| picked.contains(x) <==> all.contains(x) by {
        if picked.contains(x) {
            let k = choose|k: int| 0 <= k < picked.len() && picked[k] == x;
            assert(picked[k] < n);
            assert(all[x as int] == x);
        }
        if all.contains(x) {
            let k = choose|k: int| 0 <= k < all.len() && all[k] == x;
            assert(x == k);
            assert(picked.contains(x));
        }
    }
    lemma_ascending_same_members(picked, all);
}

/// Folding keeps the query's place in this line: if the query stands in the
/// line as written, the folded query stands in the folded line.
pub open spec fn folding_keeps(query: Seq<char>, line: Seq<char>) -> bool {
    occurs_in(query, line) ==> occurs_in(folded(query), folded(line))
}

/// Every line that the case-sensitive search selects, the case-insensitive
/// search selects too, provided that folding keeps the query's place in each
/// line.
pub proof fn lemma_sensitive_within_insensitive(
    exact: Seq<usize>,
    loose: Seq<usize>,
    query: Seq<char>,
    lines: Seq<Seq<char>>,
)
    requires
        is_selection(exact, query, lines, true),
        is_selection(loose, query, lines, false),
        forall|i: int| 0 <= i < lines.len() ==> folding_keeps(query, #[trigger] lines[i]),
    ensures
        forall|k: int| 0 <= k < exact.len() ==> loose.contains(#[trigger] exact[k]),
{
    assert forall|k: int| 0 <= k < exact.len() implies loose.contains(#[trigger] exact[k]) by {
        let i = exact[k] as int;
        assert(line_hits(query, lines[i], true));
        assert(folding_keeps(query, lines[i]));
        assert(line_hits(query, lines[i], false));
        let m = choose|m: int| 0 <= m < loose.len() && loose[m] == i;
        assert(loose[m] == exact[k]);
    }
}

/// Folding keeps the query's place wherever the query and the line are both
/// ASCII.
pub proof fn lemma_ascii_folding_keeps(query: Seq<char>, line: Seq<char>)
    requires
        is_ascii_chars(query),
        is_ascii_chars(line),
    ensures
        folding_keeps(query, line),
{
    if occurs_in(query, line) {
        let i = choose|i: int| occurs_at(query, line, i);
        assert(folded(line).subrange(i, i + folded(query).len()) =~= folded(query)) by {
            assert forall|j: int| 0 <= j < query.len() implies ascii_lower(line[i + j])
                == ascii_lower(query[j]) by {
                assert(line.subrange(i, i + query.len())[j] == line[i + j]);
            }
        }
        assert(occurs_at(folded(query), folded(line), i));
    }
}

/// Among ASCII lines and with an ASCII query, every line that the
/// case-sensitive search selects, the case-insensitive search selects too.
pub proof fn lemma_ascii_sensitive_within_insensitive(
    exact: Seq<usize>,
    loose: Seq<usize>,
    query: Seq<char>,
    lines: Seq<Seq<char>>,
)
    requires
        is_selection(exact, query, lines, true),
        is_selection(loose, query, lines, false),
        is_ascii_chars(query),
        forall|i: int| 0 <= i < lines.len() ==> is_ascii_chars(#[trigger] lines[i]),
    ensures
        forall|k: int| 0 <= k < exact.len() ==> loose.contains(#[trigger] exact[k]),
{
    assert forall|i: int| 0 <= i < lines.len() implies folding_keeps(query, #[trigger] lines[i]) by {
        lemma_ascii_folding_keeps(query, lines[i]);
    }
    lemma_sensitive_within_insensitive(exact, loose, query, lines);
}

} // verus!
