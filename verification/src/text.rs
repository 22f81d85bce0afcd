//! Texts: white space, blank and trimmed texts, and lists of seat labels.

use vstd::prelude::*;
use vstd::string::{StrSliceExecFns, StringExecFns};

verus! {

/// Whether `c` is white space: one of the characters with the Unicode
/// property `White_Space`. These are the characters that `str::trim` removes.
pub open spec fn is_whitespace(c: char) -> bool {
    let code = c as int;
    ||| 0x09 <= code <= 0x0d
    ||| code == 0x20
    ||| code == 0x85
    ||| code == 0xa0
    ||| code == 0x1680
    ||| 0x2000 <= code <= 0x200a
    ||| code == 0x2028
    ||| code == 0x2029
    ||| code == 0x202f
    ||| code == 0x205f
    ||| code == 0x3000
}

/// Tells whether `c` is white space.
pub fn char_is_whitespace(c: char) -> (b: bool)
    ensures
        b == is_whitespace(c),
{
    let code: u32 = c as u32;
    (0x09 <= code && code <= 0x0d) || code == 0x20 || code == 0x85 || code == 0xa0 || code
        == 0x1680 || (0x2000 <= code && code <= 0x200a) || code == 0x2028 || code == 0x2029
        || code == 0x202f || code == 0x205f || code == 0x3000
}

/// A text is blank when it holds nothing but white space; the empty text is blank.
pub open spec fn is_blank(s: Seq<char>) -> bool {
    forall|i: int| 0 <= i < s.len() ==> is_whitespace(#[trigger] s[i])
}

/// `s` without the white space at its start.
pub open spec fn trim_start(s: Seq<char>) -> Seq<char>
    decreases s.len(),
{
    if s.len() > 0 && is_whitespace(s[0]) {
        trim_start(s.drop_first())
    } else {
        s
    }
}

/// `s` without the white space at its end.
pub open spec fn trim_end(s: Seq<char>) -> Seq<char>
    decreases s.len(),
{
    if s.len() > 0 && is_whitespace(s.last()) {
        trim_end(s.drop_last())
    } else {
        s
    }
}

/// `s` without the white space at its start and at its end.
pub open spec fn trimmed(s: Seq<char>) -> Seq<char> {
    trim_end(trim_start(s))
}

/// The texts held by a list of strings, in order.
pub open spec fn texts(list: Seq<String>) -> Seq<Seq<char>> {
    list.map_values(|s: String| s@)
}

/// The text of an optional string.
pub open spec fn opt_text(s: Option<String>) -> Option<Seq<char>> {
    match s {
        Some(s) => Some(s@),
        None => None,
    }
}

/// Tells whether `s` is blank.
pub fn text_is_blank(s: &str) -> (b: bool)
    ensures
        b == is_blank(s@),
{
    for c in it: s.chars()
        invariant
            it.seq() == s@,
            forall|i: int| 0 <= i < it.index() ==> is_whitespace(#[trigger] s@[i]),
    {
        if !char_is_whitespace(c) {
            assert(!is_whitespace(s@[it.index()]));
            return false;
        }
    }
    true
}

/// The characters of `text`, in order.
pub fn chars_of(text: &str) -> (chars: Vec<char>)
    ensures
        chars@ == text@,
{
    let mut chars: Vec<char> = Vec::new();
    for c in it: text.chars()
        invariant
            it.seq() == text@,
            chars@ == text@.take(it.index()),
    {
        chars.push(c);
        assert(chars@ =~= text@.take(it.index() + 1));
    }
    assert(text@.take(text@.len() as int) =~= text@);
    chars
}

/// Where the trimmed part of `chars` begins and where it ends.
pub fn trim_bounds(chars: &Vec<char>) -> (bounds: (usize, usize))
    ensures
        bounds.0 <= bounds.1 <= chars.len(),
        chars@.subrange(bounds.0 as int, bounds.1 as int) == trimmed(chars@),
{
    let ghost s = chars@;
    let mut start: usize = 0;
    assert(s.skip(0) =~= s);
    while start < chars.len() && char_is_whitespace(chars[start])
        invariant
            start <= chars.len(),
            s == chars@,
            trim_start(s) == trim_start(s.skip(start as int)),
        decreases chars.len() - start,
    {
        assert(s.skip(start as int).drop_first() =~= s.skip(start + 1));
        start += 1;
    }
    assert(trim_start(s) == s.skip(start as int));
    let mut end: usize = chars.len();
    assert(s.skip(start as int) =~= s.subrange(start as int, end as int));
    while end > start && char_is_whitespace(chars[end - 1])
        invariant
            start <= end <= chars.len(),
            s == chars@,
            trim_end(s.skip(start as int)) == trim_end(s.subrange(start as int, end as int)),
        decreases end - start,
    {
        assert(s.subrange(start as int, end as int).drop_last() =~= s.subrange(
            start as int,
            end - 1,
        ));
        end -= 1;
    }
    (start, end)
}

/// `text` without the white space at its start and at its end.
pub fn trimmed_text(text: &str) -> (kept: String)
    ensures
        kept@ == trimmed(text@),
{
    let chars = chars_of(text);
    let (start, end) = trim_bounds(&chars);
    String::from_str(text.substring_char(start, end))
}

/// What trimming the end leaves is the beginning of the text, and does not
/// end in white space.
pub proof fn lemma_trim_end(s: Seq<char>)
    ensures
        trim_end(s).len() <= s.len(),
        trim_end(s) == s.take(trim_end(s).len() as int),
        trim_end(s).len() > 0 ==> !is_whitespace(trim_end(s).last()),
    decreases s.len(),
{
    if s.len() > 0 && is_whitespace(s.last()) {
        lemma_trim_end(s.drop_last());
        assert(s.drop_last().take(trim_end(s).len() as int) =~= s.take(trim_end(s).len() as int));
    } else {
        assert(s.take(s.len() as int) =~= s);
    }
}

/// What trimming the start leaves does not begin with white space.
pub proof fn lemma_trim_start(s: Seq<char>)
    ensures
        trim_start(s).len() > 0 ==> !is_whitespace(trim_start(s)[0]),
    decreases s.len(),
{
    if s.len() > 0 && is_whitespace(s[0]) {
        lemma_trim_start(s.drop_first());
    }
}

/// A trimmed text neither begins nor ends with white space.
pub proof fn lemma_trimmed_ends(s: Seq<char>)
    ensures
        trimmed(s).len() > 0 ==> !is_whitespace(trimmed(s)[0]) && !is_whitespace(
            trimmed(s).last(),
        ),
{
    lemma_trim_start(s);
    lemma_trim_end(trim_start(s));
}

/// Trimming changes nothing in a text that neither begins nor ends with
/// white space.
pub proof fn lemma_trimmed_stable(s: Seq<char>)
    requires
        s.len() > 0 ==> !is_whitespace(s[0]) && !is_whitespace(s.last()),
    ensures
        trimmed(s) == s,
{
}

/// Finds the first position at which `list` holds the text of `wanted`.
pub fn find_text(list: &Vec<String>, wanted: &String) -> (found: Option<usize>)
    ensures
        match found {
            Some(i) => {
                &&& i < list.len()
                &&& list[i as int]@ == wanted@
                &&& forall|j: int| 0 <= j < i ==> list[j]@ != wanted@
            },
            None => !texts(list@).contains(wanted@),
        },
{
    let mut i: usize = 0;
    while i < list.len()
        invariant
            i <= list.len(),
            forall|j: int| 0 <= j < i ==> list[j]@ != wanted@,
        decreases list.len() - i,
    {
        if list[i] == *wanted {
            return Some(i);
        }
        i += 1;
    }
    None
}

/// Tells whether no text occurs twice in `list`.
pub fn texts_distinct(list: &Vec<String>) -> (b: bool)
    ensures
        b == texts(list@).no_duplicates(),
{
    let mut i: usize = 0;
    while i < list.len()
        invariant
            i <= list.len(),
            forall|a: int, b: int| 0 <= a < b < i ==> list[a]@ != list[b]@,
        decreases list.len() - i,
    {
        let mut j: usize = 0;
        while j < i
            invariant
                j <= i < list.len(),
                forall|a: int| 0 <= a < j ==> list[a]@ != list[i as int]@,
            decreases i - j,
        {
            if list[j] == list[i] {
                assert(texts(list@)[j as int] == texts(list@)[i as int]);
                return false;
            }
            j += 1;
        }
        i += 1;
    }
    assert forall|a: int, b: int|
        0 <= a < texts(list@).len() && 0 <= b < texts(list@).len() && a != b implies texts(
        list@,
    )[a] != texts(list@)[b] by {
        if a < b {
            assert(list[a]@ != list[b]@);
        } else {
            assert(list[b]@ != list[a]@);
        }
    }
    true
}

/// Copies a list of strings, text for text.
pub fn clone_texts(list: &Vec<String>) -> (copy: Vec<String>)
    ensures
        texts(copy@) == texts(list@),
{
    let mut copy: Vec<String> = Vec::new();
    let mut i: usize = 0;
    while i < list.len()
        invariant
            i <= list.len(),
            copy.len() == i,
            forall|j: int| 0 <= j < i ==> copy[j]@ == list[j]@,
        decreases list.len() - i,
    {
        copy.push(list[i].clone());
        i += 1;
    }
    assert(texts(copy@) =~= texts(list@));
    copy
}

/// Copies an optional string.
pub fn clone_opt_text(s: &Option<String>) -> (copy: Option<String>)
    ensures
        opt_text(copy) == opt_text(*s),
{
    match s {
        Some(s) => Some(s.clone()),
        None => None,
    }
}

/// The items of `list` that are not in `gone`, in their order.
pub open spec fn without<A>(list: Seq<A>, gone: Seq<A>) -> Seq<A> {
    list.filter(|item: A| !gone.contains(item))
}

/// What is in two lists joined is what is in one of them.
pub proof fn lemma_joined_contains<A>(a: Seq<A>, b: Seq<A>, item: A)
    ensures
        (a + b).contains(item) <==> a.contains(item) || b.contains(item),
{
    if a.contains(item) {
        let k = a.index_of(item);
        assert((a + b)[k] == item);
    }
    if b.contains(item) {
        let k = b.index_of(item);
        assert((a + b)[a.len() + k] == item);
    }
    if (a + b).contains(item) {
        let k = (a + b).index_of(item);
        if k < a.len() {
            assert(a[k] == item);
        } else {
            assert(b[k - a.len()] == item);
        }
    }
}

/// Two lists without repeats that share no item join to a list without
/// repeats.
pub proof fn lemma_joined_distinct<A>(a: Seq<A>, b: Seq<A>)
    requires
        a.no_duplicates(),
        b.no_duplicates(),
        forall|i: int| 0 <= i < b.len() ==> !a.contains(#[trigger] b[i]),
    ensures
        (a + b).no_duplicates(),
{
    assert forall|i: int, j: int| 0 <= i < j < (a + b).len() implies (a + b)[i] != (a + b)[j] by {
        if i < a.len() && j >= a.len() {
            assert(a.contains(a[i]));
            assert(!a.contains(b[j - a.len()]));
        }
    }
}

/// Filtering a list without repeats leaves one without repeats.
pub proof fn lemma_filter_distinct<A>(s: Seq<A>, keep: spec_fn(A) -> bool)
    requires
        s.no_duplicates(),
    ensures
        s.filter(keep).no_duplicates(),
    decreases s.len(),
{
    if s.len() > 0 {
        let p = s.drop_last();
        let f = p.filter(keep);
        assert(s =~= p.push(s.last()));
        p.lemma_filter_push(s.last(), keep);
        lemma_filter_distinct(p, keep);
        if keep(s.last()) {
            assert forall|i: int| 0 <= i < f.len() implies f[i] != s.last() by {
                assert(f.contains(f[i]));
                p.lemma_filter_contains_rev(keep, f[i]);
                let k = p.index_of(f[i]);
                assert(s[k] == p[k]);
            }
        }
    } else {
        s.lemma_filter_len(keep);
    }
}

/// What is left of a list without the items of another: the items of the
/// first that are not in the second, and no item twice where the first had
/// none twice.
pub proof fn lemma_without<A>(list: Seq<A>, gone: Seq<A>)
    ensures
        forall|item: A| #[trigger]
            without(list, gone).contains(item) <==> list.contains(item) && !gone.contains(item),
        list.no_duplicates() ==> without(list, gone).no_duplicates(),
        without(list, gone).len() <= list.len(),
{
    let keep = |item: A| !gone.contains(item);
    let left = list.filter(keep);
    assert forall|item: A| #[trigger] left.contains(item) <==> list.contains(item) && keep(
        item,
    ) by {
        if left.contains(item) {
            list.lemma_filter_contains_rev(keep, item);
            list.lemma_filter_pred(keep, left.index_of(item));
        }
        if list.contains(item) && keep(item) {
            list.lemma_filter_contains(keep, list.index_of(item));
        }
    }
    if list.no_duplicates() {
        lemma_filter_distinct(list, keep);
    }
    list.lemma_filter_len(keep);
}

/// A list grown by items it did not hold, and then without those items, is
/// the list as it was.
pub proof fn lemma_without_added<A>(list: Seq<A>, added: Seq<A>)
    requires
        forall|i: int| 0 <= i < added.len() ==> !list.contains(#[trigger] added[i]),
    ensures
        without(list + added, added) == list,
    decreases added.len(),
{
    let keep = |item: A| !added.contains(item);
    lemma_filter_all(list, keep);
    lemma_filter_none(added, keep);
    Seq::filter_distributes_over_add(list, added, keep);
    assert(list.filter(keep) + added.filter(keep) =~= list);
}

/// A filter that every item passes leaves the list as it is.
pub proof fn lemma_filter_all<A>(s: Seq<A>, keep: spec_fn(A) -> bool)
    requires
        forall|i: int| 0 <= i < s.len() ==> keep(#[trigger] s[i]),
    ensures
        s.filter(keep) == s,
    decreases s.len(),
{
    if s.len() > 0 {
        let p = s.drop_last();
        assert(s =~= p.push(s.last()));
        p.lemma_filter_push(s.last(), keep);
        assert forall|i: int| 0 <= i < p.len() implies keep(#[trigger] p[i]) by {
            assert(p[i] == s[i]);
        }
        lemma_filter_all(p, keep);
    } else {
        s.lemma_filter_len(keep);
        assert(s.filter(keep) =~= s);
    }
}

/// A filter that no item passes leaves nothing.
pub proof fn lemma_filter_none<A>(s: Seq<A>, keep: spec_fn(A) -> bool)
    requires
        forall|i: int| 0 <= i < s.len() ==> !keep(#[trigger] s[i]),
    ensures
        s.filter(keep).len() == 0,
    decreases s.len(),
{
    if s.len() > 0 {
        let p = s.drop_last();
        assert(s =~= p.push(s.last()));
        p.lemma_filter_push(s.last(), keep);
        assert forall|i: int| 0 <= i < p.len() implies !keep(#[trigger] p[i]) by {
            assert(p[i] == s[i]);
        }
        lemma_filter_none(p, keep);
    } else {
        s.lemma_filter_len(keep);
    }
}

} // verus!
