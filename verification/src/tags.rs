//! Tag text: how a raw tag string becomes the form under which it is stored
//! and searched.

use vstd::prelude::*;

verus! {

/// The Unicode `White_Space` property of a character, which is what
/// `str::trim` removes from both ends of a string.
pub uninterp spec fn white_space(c: char) -> bool;

/// The lower-case equivalent of a string as `str::to_lowercase` computes it
/// from the Unicode `Lowercase` tables.
pub uninterp spec fn lowercased(s: Seq<char>) -> Seq<char>;

/// `s` without its leading white space.
pub open spec fn skip_leading_space(s: Seq<char>) -> Seq<char>
    decreases s.len(),
{
    if s.len() > 0 && white_space(s.first()) {
        skip_leading_space(s.drop_first())
    } else {
        s
    }
}

/// `s` without its trailing white space.
pub open spec fn skip_trailing_space(s: Seq<char>) -> Seq<char>
    decreases s.len(),
{
    if s.len() > 0 && white_space(s.last()) {
        skip_trailing_space(s.drop_last())
    } else {
        s
    }
}

/// `s` with leading and trailing white space removed.
pub open spec fn trimmed(s: Seq<char>) -> Seq<char> {
    skip_trailing_space(skip_leading_space(s))
}

/// The stored form of a raw tag: trimmed, then lower-cased. A raw tag whose
/// stored form is empty is no tag at all.
pub open spec fn tag_normal_form(raw: Seq<char>) -> Seq<char> {
    lowercased(trimmed(raw))
}

/// Calls `str::trim`. Trusted: the result is the argument with its leading
/// and trailing `White_Space` characters removed, so that what is left
/// neither starts nor ends with one.
#[verifier::external_body]
pub(crate) fn trim_str(s: &str) -> (r: &str)
    ensures
        r@ == trimmed(s@),
        r@.len() > 0 ==> !white_space(r@.first()) && !white_space(r@.last()),
{
    s.trim()
}

/// Calls `str::to_lowercase`. Trusted: the result is the lower-case
/// equivalent of the argument, which depends on the argument alone, and the
/// lower-case equivalent of the empty string is empty.
#[verifier::external_body]
fn lowercase_str(s: &str) -> (r: String)
    ensures
        r@ == lowercased(s@),
        s@.len() == 0 ==> r@.len() == 0,
{
    s.to_lowercase()
}

/// Whether `s` holds nothing but white space.
pub open spec fn is_blank(s: Seq<char>) -> bool {
    forall|i: int| 0 <= i < s.len() ==> white_space(#[trigger] s[i])
}

/// The stored form of one raw tag. That of a blank string is empty.
pub fn normalize_tag(raw: &str) -> (tag: String)
    ensures
        tag@ == tag_normal_form(raw@),
        is_blank(raw@) ==> tag@.len() == 0,
{
    proof {
        if is_blank(raw@) {
            lemma_blank_trims_to_empty(raw@);
        }
    }
    let t = trim_str(raw);
    lowercase_str(t)
}

/// The character sequences of a list of strings.
pub open spec fn texts(v: Seq<String>) -> Seq<Seq<char>> {
    Seq::new(v.len(), |i: int| v[i]@)
}

/// `s` with every element that already occurred earlier left out.
pub open spec fn first_occurrences(s: Seq<Seq<char>>) -> Seq<Seq<char>>
    decreases s.len(),
{
    if s.len() == 0 {
        Seq::empty()
    } else {
        let before = first_occurrences(s.drop_last());
        if before.contains(s.last()) {
            before
        } else {
            before.push(s.last())
        }
    }
}

/// The stored forms of the raw tags, in order, without the empty ones.
pub open spec fn normal_forms(raw: Seq<Seq<char>>) -> Seq<Seq<char>>
    decreases raw.len(),
{
    if raw.len() == 0 {
        Seq::empty()
    } else {
        let before = normal_forms(raw.drop_last());
        let tag = tag_normal_form(raw.last());
        if tag.len() == 0 {
            before
        } else {
            before.push(tag)
        }
    }
}

/// The tags that a list of raw tag strings asks for, each once, in the order
/// in which they first occur.
pub open spec fn normalized_list(raw: Seq<Seq<char>>) -> Seq<Seq<char>> {
    first_occurrences(normal_forms(raw))
}

/// The set of tags that a list of raw tag strings asks for: the non-empty
/// stored forms of its entries.
pub open spec fn normalized_tags(raw: Seq<Seq<char>>) -> Set<Seq<char>> {
    Set::new(
        |t: Seq<char>|
            t.len() > 0 && exists|i: int|
                0 <= i < raw.len() && t == tag_normal_form(#[trigger] raw[i]),
    )
}

/// `first_occurrences` keeps exactly the elements of its argument, each once.
pub proof fn lemma_first_occurrences(s: Seq<Seq<char>>)
    ensures
        first_occurrences(s).no_duplicates(),
        first_occurrences(s).to_set() == s.to_set(),
        first_occurrences(s).len() <= s.len(),
    decreases s.len(),
{
    if s.len() > 0 {
        let front = s.drop_last();
        lemma_first_occurrences(front);
        let before = first_occurrences(front);
        assert forall|x: Seq<char>| s.to_set().contains(x) <==> (front.to_set().contains(x) || x
            == s.last()) by {
            if s.contains(x) {
                let i = choose|i: int| 0 <= i < s.len() && s[i] == x;
                if i < front.len() {
                    assert(front[i] == x);
                }
            }
            if front.contains(x) {
                let i = choose|i: int| 0 <= i < front.len() && front[i] == x;
                assert(s[i] == x);
            }
            if x == s.last() {
                assert(s[s.len() - 1] == x);
            }
        }
        if before.contains(s.last()) {
            assert(before.to_set().contains(s.last()));
            assert(first_occurrences(s).to_set() =~= s.to_set());
        } else {
            let out = before.push(s.last());
            assert forall|x: Seq<char>| out.to_set().contains(x) <==> (before.to_set().contains(x)
                || x == s.last()) by {
                if out.contains(x) {
                    let i = choose|i: int| 0 <= i < out.len() && out[i] == x;
                    if i < before.len() {
                        assert(before[i] == x);
                    }
                }
                if before.contains(x) {
                    let i = choose|i: int| 0 <= i < before.len() && before[i] == x;
                    assert(out[i] == x);
                }
                if x == s.last() {
                    assert(out[out.len() - 1] == x);
                }
            }
            assert(first_occurrences(s).to_set() =~= s.to_set());
        }
    } else {
        assert(first_occurrences(s).to_set() =~= s.to_set());
    }
}

/// The elements of `normal_forms(raw)` are the non-empty stored forms of the
/// entries of `raw`.
pub proof fn lemma_normal_forms(raw: Seq<Seq<char>>)
    ensures
        normal_forms(raw).to_set() == normalized_tags(raw),
        normal_forms(raw).len() <= raw.len(),
    decreases raw.len(),
{
    let out = normal_forms(raw);
    if raw.len() > 0 {
        let front = raw.drop_last();
        lemma_normal_forms(front);
        let before = normal_forms(front);
        let tag = tag_normal_form(raw.last());
        assert forall|t: Seq<char>| out.to_set().contains(t) <==> normalized_tags(raw).contains(
            t,
        ) by {
            if out.contains(t) {
                let k = choose|k: int| 0 <= k < out.len() && out[k] == t;
                if k < before.len() {
                    assert(before[k] == t);
                    assert(before.to_set().contains(t));
                    let i = choose|i: int|
                        0 <= i < front.len() && t == tag_normal_form(#[trigger] front[i]);
                    assert(raw[i] == front[i]);
                } else {
                    assert(t == tag_normal_form(raw[raw.len() - 1]));
                }
            }
            if normalized_tags(raw).contains(t) {
                let i = choose|i: int|
                    0 <= i < raw.len() && t == tag_normal_form(#[trigger] raw[i]);
                if i < front.len() {
                    assert(front[i] == raw[i]);
                    assert(normalized_tags(front).contains(t));
                    assert(before.to_set().contains(t));
                    let k = choose|k: int| 0 <= k < before.len() && before[k] == t;
                    assert(out[k] == t);
                } else {
                    assert(out[out.len() - 1] == t);
                }
            }
        }
        assert(out.to_set() =~= normalized_tags(raw));
    } else {
        assert(out.to_set() =~= normalized_tags(raw));
    }
}

/// The normalized list holds exactly the normalized tags, each once.
pub proof fn lemma_normalized_list(raw: Seq<Seq<char>>)
    ensures
        normalized_list(raw).no_duplicates(),
        normalized_list(raw).to_set() == normalized_tags(raw),
        normalized_list(raw).len() <= raw.len(),
        forall|i: int| 0 <= i < normalized_list(raw).len() ==> normalized_list(raw)[i].len() > 0,
{
    lemma_first_occurrences(normal_forms(raw));
    lemma_normal_forms(raw);
    let list = normalized_list(raw);
    assert forall|i: int| 0 <= i < list.len() implies list[i].len() > 0 by {
        assert(list.to_set().contains(list[i]));
    }
}

/// Whether `list` holds a string with the characters of `s`.
pub fn contains_text(list: &Vec<String>, s: &String) -> (found: bool)
    ensures
        found == texts(list@).contains(s@),
{
    let mut i: usize = 0;
    while i < list.len()
        invariant
            i <= list.len(),
            forall|j: int| 0 <= j < i ==> texts(list@)[j] != s@,
        decreases list.len() - i,
    {
        if list[i] == *s {
            assert(texts(list@)[i as int] == s@);
            return true;
        }
        i += 1;
    }
    false
}

/// Leaves out every string that already occurred earlier in the list.
pub fn dedup_texts(list: &Vec<String>) -> (out: Vec<String>)
    ensures
        texts(out@) == first_occurrences(texts(list@)),
{
    let mut out: Vec<String> = Vec::new();
    let mut i: usize = 0;
    assert(texts(list@).take(0) =~= Seq::empty());
    assert(texts(out@) =~= Seq::empty());
    while i < list.len()
        invariant
            i <= list.len(),
            texts(out@) == first_occurrences(texts(list@).take(i as int)),
        decreases list.len() - i,
    {
        let ghost prefix = texts(list@).take(i as int + 1);
        assert(prefix.drop_last() =~= texts(list@).take(i as int));
        assert(prefix.last() == list@[i as int]@);
        if !contains_text(&out, &list[i]) {
            let ghost before = texts(out@);
            out.push(list[i].clone());
            assert(texts(out@) =~= before.push(list@[i as int]@));
        }
        i += 1;
    }
    assert(texts(list@).take(list.len() as int) =~= texts(list@));
    out
}

/// Normalizes a list of raw tag strings: each is trimmed and lower-cased,
/// the empty results are left out, and what occurs twice is kept once. Of a
/// list of blank strings nothing is left.
pub fn normalize_tags(raw: &Vec<String>) -> (out: Vec<String>)
    ensures
        texts(out@) == normalized_list(texts(raw@)),
        texts(out@).no_duplicates(),
        texts(out@).to_set() == normalized_tags(texts(raw@)),
        (forall|i: int| 0 <= i < raw@.len() ==> is_blank(#[trigger] texts(raw@)[i])) ==> out@.len()
            == 0,
{
    let mut forms: Vec<String> = Vec::new();
    let mut i: usize = 0;
    assert(texts(raw@).take(0) =~= Seq::empty());
    assert(texts(forms@) =~= Seq::empty());
    while i < raw.len()
        invariant
            i <= raw.len(),
            texts(forms@) == normal_forms(texts(raw@).take(i as int)),
            (forall|j: int| 0 <= j < i ==> is_blank(#[trigger] texts(raw@)[j])) ==> forms@.len()
                == 0,
        decreases raw.len() - i,
    {
        let ghost prefix = texts(raw@).take(i as int + 1);
        assert(prefix.drop_last() =~= texts(raw@).take(i as int));
        assert(prefix.last() == raw@[i as int]@);
        let tag = normalize_tag(raw[i].as_str());
        if !tag.as_str().is_empty() {
            let ghost before = texts(forms@);
            forms.push(tag);
            assert(texts(forms@) =~= before.push(tag@));
        }
        i += 1;
    }
    assert(texts(raw@).take(raw.len() as int) =~= texts(raw@));
    proof {
        lemma_normalized_list(texts(raw@));
    }
    dedup_texts(&forms)
}

/// What is left after the leading white space is the rest of the string
/// from some position on, and does not start with white space.
pub proof fn lemma_skip_leading_space(s: Seq<char>)
    ensures
        skip_leading_space(s).len() <= s.len(),
        skip_leading_space(s) == s.skip(s.len() - skip_leading_space(s).len()),
        skip_leading_space(s).len() > 0 ==> !white_space(skip_leading_space(s).first()),
        forall|i: int| 0 <= i < s.len() - skip_leading_space(s).len() ==> white_space(s[i]),
    decreases s.len(),
{
    if s.len() > 0 && white_space(s.first()) {
        let rest = s.drop_first();
        lemma_skip_leading_space(rest);
        let kept = skip_leading_space(rest);
        assert(rest.skip(rest.len() - kept.len()) =~= s.skip(s.len() - kept.len()));
        assert forall|i: int| 0 <= i < s.len() - kept.len() implies white_space(s[i]) by {
            if i > 0 {
                assert(s[i] == rest[i - 1]);
            }
        }
    } else {
        assert(s.skip(0) =~= s);
    }
}

/// What is left after the trailing white space is the string up to some
/// position, and does not end with white space.
pub proof fn lemma_skip_trailing_space(s: Seq<char>)
    ensures
        skip_trailing_space(s).len() <= s.len(),
        skip_trailing_space(s) == s.take(skip_trailing_space(s).len() as int),
        skip_trailing_space(s).len() > 0 ==> !white_space(skip_trailing_space(s).last()),
        forall|i: int| skip_trailing_space(s).len() <= i < s.len() ==> white_space(s[i]),
    decreases s.len(),
{
    if s.len() > 0 && white_space(s.last()) {
        let rest = s.drop_last();
        lemma_skip_trailing_space(rest);
        let kept = skip_trailing_space(rest);
        assert(rest.take(kept.len() as int) =~= s.take(kept.len() as int));
        assert forall|i: int| kept.len() <= i < s.len() implies white_space(s[i]) by {
            if i < rest.len() {
                assert(s[i] == rest[i]);
            }
        }
    } else {
        assert(s.take(s.len() as int) =~= s);
    }
}

/// A trimmed string is a piece of the string, with nothing but white
/// space before and after it, and neither starts nor ends with white space.
pub proof fn lemma_trimmed(s: Seq<char>)
    ensures
        exists|from: int, to: int|
            0 <= from <= to <= s.len() && #[trigger] s.subrange(from, to) == trimmed(s) && (forall|
                i: int,
            |
                0 <= i < from || to <= i < s.len() ==> white_space(s[i])),
        trimmed(s).len() > 0 ==> !white_space(trimmed(s).first()) && !white_space(
            trimmed(s).last(),
        ),
{
    let inner = skip_leading_space(s);
    lemma_skip_leading_space(s);
    lemma_skip_trailing_space(inner);
    let from = s.len() - inner.len();
    let to = from + trimmed(s).len();
    assert(s.subrange(from, to) =~= trimmed(s));
    assert forall|i: int| 0 <= i < from || to <= i < s.len() implies white_space(s[i]) by {
        if to <= i {
            assert(s[i] == inner[i - from]);
        }
    }
    if trimmed(s).len() > 0 {
        assert(trimmed(s).first() == inner.first());
    }
}

/// Trimming a trimmed string changes nothing.
pub proof fn lemma_trim_idempotent(s: Seq<char>)
    ensures
        trimmed(trimmed(s)) == trimmed(s),
{
    lemma_trimmed(s);
}

/// A string of white space only is empty once trimmed.
pub proof fn lemma_blank_trims_to_empty(s: Seq<char>)
    requires
        is_blank(s),
    ensures
        trimmed(s).len() == 0,
{
    lemma_trimmed(s);
    let t = trimmed(s);
    if t.len() > 0 {
        let (from, to) = choose|from: int, to: int|
            0 <= from <= to <= s.len() && #[trigger] s.subrange(from, to) == trimmed(s) && (forall|
                i: int,
            |
                0 <= i < from || to <= i < s.len() ==> white_space(s[i]));
        assert(t.first() == s[from]);
    }
}

/// A list in which nothing occurs twice is its own list of first
/// occurrences.
pub proof fn lemma_first_occurrences_of_distinct(s: Seq<Seq<char>>)
    requires
        s.no_duplicates(),
    ensures
        first_occurrences(s) == s,
    decreases s.len(),
{
    if s.len() > 0 {
        let front = s.drop_last();
        lemma_first_occurrences_of_distinct(front);
        if front.contains(s.last()) {
            let i = choose|i: int| 0 <= i < front.len() && front[i] == s.last();
            assert(s[i] == s[s.len() - 1]);
        }
        assert(front.push(s.last()) =~= s);
    } else {
        assert(first_occurrences(s) =~= s);
    }
}

/// Whether tag normalization leaves `t` as it is and `t` is not empty.
pub open spec fn is_normal(t: Seq<char>) -> bool {
    t.len() > 0 && tag_normal_form(t) == t
}

/// A list of tags in normal form is its own list of normal forms.
pub proof fn lemma_normal_forms_of_normal(s: Seq<Seq<char>>)
    requires
        forall|i: int| 0 <= i < s.len() ==> is_normal(#[trigger] s[i]),
    ensures
        normal_forms(s) == s,
    decreases s.len(),
{
    if s.len() > 0 {
        let front = s.drop_last();
        assert forall|i: int| 0 <= i < front.len() implies is_normal(#[trigger] front[i]) by {
            assert(front[i] == s[i]);
        }
        lemma_normal_forms_of_normal(front);
        assert(is_normal(s[s.len() - 1]));
        assert(front.push(s.last()) =~= s);
    } else {
        assert(normal_forms(s) =~= s);
    }
}

/// Normalizing a request a second time changes nothing, wherever tag
/// normalization leaves each of the request's normalized tags as it is.
pub proof fn lemma_normalizing_again(raw: Seq<Seq<char>>)
    requires
        forall|t: Seq<char>| #[trigger] normalized_tags(raw).contains(t) ==> is_normal(t),
    ensures
        normalized_list(normalized_list(raw)) == normalized_list(raw),
        normalized_tags(normalized_list(raw)) == normalized_tags(raw),
{
    let list = normalized_list(raw);
    lemma_normalized_list(raw);
    assert forall|i: int| 0 <= i < list.len() implies is_normal(#[trigger] list[i]) by {
        assert(list.to_set().contains(list[i]));
    }
    lemma_normal_forms_of_normal(list);
    lemma_first_occurrences_of_distinct(list);
    lemma_normalized_list(list);
}

} // verus!
