//! Quotes, and the store that holds them together with their tags.

use crate::tags::{
    contains_text, dedup_texts, first_occurrences, is_blank, lemma_first_occurrences,
    lemma_normalized_list, normalize_tag, normalize_tags, normalized_list, normalized_tags,
    tag_normal_form, texts,
};
use vstd::prelude::*;

verus! {

/// A quote as it is stored: its identity is `id`.
#[derive(Clone, Debug)]
pub struct Quote {
    pub id: String,
    pub whos_there: String,
    pub answer_who: String,
    pub source: String,
}

/// What a `Quote` holds, as character sequences.
pub struct QuoteView {
    pub id: Seq<char>,
    pub whos_there: Seq<char>,
    pub answer_who: Seq<char>,
    pub source: Seq<char>,
}

impl View for Quote {
    type V = QuoteView;

    open spec fn view(&self) -> QuoteView {
        QuoteView {
            id: self.id@,
            whos_there: self.whos_there@,
            answer_who: self.answer_who@,
            source: self.source@,
        }
    }
}

/// A quote together with a set of tags: in a store its normalized tags, in
/// a `JsonQuote` its tags as they were given.
pub struct Entry {
    pub quote: QuoteView,
    pub tags: Set<Seq<char>>,
}

/// A quote with its tags, as it is exchanged with the outside. `tags` stands
/// for a set: the order of its elements carries no meaning.
#[derive(Clone, Debug)]
pub struct JsonQuote {
    pub id: String,
    pub whos_there: String,
    pub answer_who: String,
    pub tags: Vec<String>,
    pub source: String,
}

impl View for JsonQuote {
    type V = Entry;

    open spec fn view(&self) -> Entry {
        Entry {
            quote: QuoteView {
                id: self.id@,
                whos_there: self.whos_there@,
                answer_who: self.answer_who@,
                source: self.source@,
            },
            tags: texts(self.tags@).to_set(),
        }
    }
}

/// Why a request to the quote store was not served.
#[derive(Clone, Copy, Debug, PartialEq, Eq, Structural)]
pub enum QuoteError {
    /// No quote has the requested id, or the store is empty.
    NotFound,
    /// No quote carries all the requested tags.
    NoMatch,
    /// A quote with this id is already stored.
    Conflict,
    /// The quote to insert is malformed: one of its tags is empty.
    ValidationError,
    /// The underlying store could not be reached.
    StoreUnavailable,
}

/// A copy of `q`.
pub fn copy_quote(q: &Quote) -> (r: Quote)
    ensures
        r@ == q@,
{
    Quote {
        id: q.id.clone(),
        whos_there: q.whos_there.clone(),
        answer_who: q.answer_who.clone(),
        source: q.source.clone(),
    }
}

/// A copy of a list of strings.
pub fn copy_texts(list: &Vec<String>) -> (out: Vec<String>)
    ensures
        texts(out@) == texts(list@),
{
    let mut out: Vec<String> = Vec::new();
    let mut i: usize = 0;
    while i < list.len()
        invariant
            i <= list.len(),
            out.len() == i,
            forall|j: int| 0 <= j < i ==> out@[j]@ == list@[j]@,
        decreases list.len() - i,
    {
        out.push(list[i].clone());
        i += 1;
    }
    assert(texts(out@) =~= texts(list@));
    out
}

impl JsonQuote {
    /// Whether no tag occurs twice in `tags`.
    pub open spec fn wf(&self) -> bool {
        texts(self.tags@).no_duplicates()
    }

    /// The quote `quote` with the tags `tags`, each tag kept once.
    pub fn new(quote: &Quote, tags: Vec<String>) -> (r: Self)
        ensures
            r@.quote == quote@,
            r@.tags == texts(tags@).to_set(),
            texts(r.tags@) == first_occurrences(texts(tags@)),
            r.wf(),
    {
        proof {
            lemma_first_occurrences(texts(tags@));
        }
        let tags_set = dedup_texts(&tags);
        JsonQuote {
            id: quote.id.clone(),
            whos_there: quote.whos_there.clone(),
            answer_who: quote.answer_who.clone(),
            tags: tags_set,
            source: quote.source.clone(),
        }
    }

    /// The quote without its tags, and the tags.
    pub fn to_quote(&self) -> (r: (Quote, Vec<String>))
        ensures
            r.0@ == self@.quote,
            texts(r.1@) == texts(self.tags@),
    {
        let quote = Quote {
            id: self.id.clone(),
            whos_there: self.whos_there.clone(),
            answer_who: self.answer_who.clone(),
            source: self.source.clone(),
        };
        (quote, copy_texts(&self.tags))
    }
}

/// Whether `t` can be a stored tag: the non-empty stored form of some raw tag.
pub open spec fn is_stored_tag(t: Seq<char>) -> bool {
    t.len() > 0 && exists|raw: Seq<char>| #[trigger] tag_normal_form(raw) == t
}

/// Whether some entry has the id `id`.
pub open spec fn has_id(entries: Seq<Entry>, id: Seq<char>) -> bool {
    exists|i: int| 0 <= i < entries.len() && (#[trigger] entries[i]).quote.id == id
}

/// The position of an entry with the id `id`, where there is one.
pub open spec fn index_with_id(entries: Seq<Entry>, id: Seq<char>) -> int {
    choose|i: int| 0 <= i < entries.len() && (#[trigger] entries[i]).quote.id == id
}

/// The entry with the id `id`, where there is one.
pub open spec fn entry_with_id(entries: Seq<Entry>, id: Seq<char>) -> Entry {
    entries[index_with_id(entries, id)]
}

/// What holds of the entries of every store: no id occurs twice, and each
/// entry carries finitely many tags, all of them stored tags.
pub open spec fn well_formed(entries: Seq<Entry>) -> bool {
    &&& forall|i: int, j: int|
        0 <= i < j < entries.len() ==> (#[trigger] entries[i]).quote.id != (
        #[trigger] entries[j]).quote.id
    &&& forall|i: int| 0 <= i < entries.len() ==> (#[trigger] entries[i]).tags.finite()
    &&& forall|i: int, t: Seq<char>|
        0 <= i < entries.len() && #[trigger] entries[i].tags.contains(t) ==> is_stored_tag(t)
}

/// In a well-formed store the entry at position `i` is the one found under
/// its id.
pub proof fn lemma_index_with_id(entries: Seq<Entry>, i: int)
    requires
        well_formed(entries),
        0 <= i < entries.len(),
    ensures
        has_id(entries, entries[i].quote.id),
        index_with_id(entries, entries[i].quote.id) == i,
        entry_with_id(entries, entries[i].quote.id) == entries[i],
{
    let id = entries[i].quote.id;
    let k = index_with_id(entries, id);
    assert(0 <= k < entries.len() && entries[k].quote.id == id);
    if k < i {
        assert(entries[k].quote.id != entries[i].quote.id);
    }
    if i < k {
        assert(entries[i].quote.id != entries[k].quote.id);
    }
}

/// A stored quote with its tags, none of which occurs twice.
struct StoredQuote {
    quote: Quote,
    tags: Vec<String>,
}

impl View for StoredQuote {
    type V = Entry;

    closed spec fn view(&self) -> Entry {
        Entry { quote: self.quote@, tags: texts(self.tags@).to_set() }
    }
}

/// The quote store: quotes in the order in which they were inserted, each
/// with its tags.
pub struct QuoteStore {
    entries: Vec<StoredQuote>,
}

impl View for QuoteStore {
    type V = Seq<Entry>;

    closed spec fn view(&self) -> Seq<Entry> {
        Seq::new(self.entries@.len(), |i: int| self.entries@[i]@)
    }
}

impl QuoteStore {
    /// What holds of the representation: no tag is held twice for a quote.
    pub closed spec fn inv(&self) -> bool {
        forall|i: int|
            0 <= i < self.entries@.len() ==> texts(
                (#[trigger] self.entries@[i]).tags@,
            ).no_duplicates()
    }

    /// The validity of a store.
    pub open spec fn wf(&self) -> bool {
        self.inv() && well_formed(self@)
    }

    /// The empty store.
    pub fn new() -> (db: Self)
        ensures
            db.wf(),
            db@ == Seq::<Entry>::empty(),
    {
        let db = QuoteStore { entries: Vec::new() };
        assert(db@ =~= Seq::<Entry>::empty());
        db
    }

    /// The ids of the stored quotes, in the order of insertion.
    pub fn quote_ids(&self) -> (ids: Vec<String>)
        ensures
            texts(ids@) == all_ids(self@),
    {
        let mut ids: Vec<String> = Vec::new();
        let mut i: usize = 0;
        while i < self.entries.len()
            invariant
                i <= self.entries@.len(),
                ids@.len() == i,
                forall|j: int| 0 <= j < i ==> (#[trigger] ids@[j])@ == self@[j].quote.id,
            decreases self.entries@.len() - i,
        {
            ids.push(self.entries[i].quote.id.clone());
            i += 1;
        }
        assert(texts(ids@) =~= all_ids(self@));
        ids
    }

    /// The number of stored quotes.
    pub fn len(&self) -> (n: usize)
        ensures
            n == self@.len(),
    {
        self.entries.len()
    }

    /// The position of the quote with the id `id`.
    fn position(&self, id: &String) -> (r: Option<usize>)
        ensures
            match r {
                Some(i) => i < self@.len() && self@[i as int].quote.id == id@,
                None => !has_id(self@, id@),
            },
    {
        let mut i: usize = 0;
        while i < self.entries.len()
            invariant
                i <= self.entries@.len(),
                forall|j: int| 0 <= j < i ==> (#[trigger] self@[j]).quote.id != id@,
            decreases self.entries@.len() - i,
        {
            if self.entries[i].quote.id == *id {
                return Some(i);
            }
            i += 1;
        }
        None
    }
}

/// Looks a quote up by its id. Fails with `NotFound` exactly when no stored
/// quote has that id.
pub fn get_quote_by_id_from_db(db: &QuoteStore, quote_id: &str) -> (r: Result<
    (Quote, Vec<String>),
    QuoteError,
>)
    requires
        db.wf(),
    ensures
        match r {
            Ok((quote, tags)) => {
                &&& has_id(db@, quote_id@)
                &&& quote@ == entry_with_id(db@, quote_id@).quote
                &&& texts(tags@).to_set() == entry_with_id(db@, quote_id@).tags
                &&& texts(tags@).no_duplicates()
            },
            Err(e) => e == QuoteError::NotFound && !has_id(db@, quote_id@),
        },
{
    let id = quote_id.to_owned();
    match db.position(&id) {
        Some(i) => {
            proof {
                lemma_index_with_id(db@, i as int);
            }
            let entry = &db.entries[i];
            Ok((copy_quote(&entry.quote), copy_texts(&entry.tags)))
        },
        None => Err(QuoteError::NotFound),
    }
}

/// The id that the draw `draw` picks among `ids`: every id is picked by the
/// same number of draws, give or take one.
pub open spec fn drawn(ids: Seq<Seq<char>>, draw: int) -> Seq<char> {
    ids[draw % (ids.len() as int)]
}

/// The ids of all stored quotes, in the order of insertion.
pub open spec fn all_ids(entries: Seq<Entry>) -> Seq<Seq<char>> {
    entries.map_values(|e: Entry| e.quote.id)
}

/// Picks the id of one stored quote by the random draw `draw`. Fails with
/// `NotFound` exactly when the store is empty.
pub fn get_random_quote_id_from_db(db: &QuoteStore, draw: u64) -> (r: Result<String, QuoteError>)
    ensures
        match r {
            Ok(id) => db@.len() > 0 && id@ == drawn(all_ids(db@), draw as int),
            Err(e) => e == QuoteError::NotFound && db@.len() == 0,
        },
{
    let n = db.entries.len();
    if n == 0 {
        return Err(QuoteError::NotFound);
    }
    let k = (draw % (n as u64)) as usize;
    Ok(db.entries[k].quote.id.clone())
}

/// The test that an entry carries every tag of `wanted`.
pub open spec fn carries(wanted: Set<Seq<char>>) -> spec_fn(Entry) -> bool {
    |e: Entry| wanted.subset_of(e.tags)
}

/// The ids of the entries that carry every tag of `wanted`, in the order of
/// insertion.
pub open spec fn matching_ids(entries: Seq<Entry>, wanted: Set<Seq<char>>) -> Seq<Seq<char>> {
    all_ids(entries.filter(carries(wanted)))
}

/// What a search by tags found.
#[derive(Clone, Debug)]
pub enum TagMatch {
    /// The request named no tag at all.
    NoCriteria,
    /// No stored quote carries all the requested tags.
    NoMatch,
    /// The id of a quote that carries all the requested tags.
    Found(String),
}

/// What a `TagMatch` holds, as character sequences.
pub enum TagMatchView {
    NoCriteria,
    NoMatch,
    Found(Seq<char>),
}

impl View for TagMatch {
    type V = TagMatchView;

    open spec fn view(&self) -> TagMatchView {
        match self {
            TagMatch::NoCriteria => TagMatchView::NoCriteria,
            TagMatch::NoMatch => TagMatchView::NoMatch,
            TagMatch::Found(id) => TagMatchView::Found(id@),
        }
    }
}

/// The result of a search for the raw tags `raw` with the random draw
/// `draw`: no criteria where no raw tag has a non-empty stored form, else
/// one of the quotes that carry all the requested tags, if there is any.
pub open spec fn tag_match(entries: Seq<Entry>, raw: Seq<Seq<char>>, draw: int) -> TagMatchView {
    let wanted = normalized_tags(raw);
    let ids = matching_ids(entries, wanted);
    if wanted =~= Set::<Seq<char>>::empty() {
        TagMatchView::NoCriteria
    } else if ids.len() == 0 {
        TagMatchView::NoMatch
    } else {
        TagMatchView::Found(drawn(ids, draw))
    }
}

/// Whether every string of `wanted` is among `tags`.
fn carries_all(tags: &Vec<String>, wanted: &Vec<String>) -> (r: bool)
    ensures
        r == texts(wanted@).to_set().subset_of(texts(tags@).to_set()),
{
    let mut i: usize = 0;
    while i < wanted.len()
        invariant
            i <= wanted.len(),
            forall|j: int| 0 <= j < i ==> texts(tags@).contains(#[trigger] texts(wanted@)[j]),
        decreases wanted.len() - i,
    {
        if !contains_text(tags, &wanted[i]) {
            assert(texts(wanted@).to_set().contains(texts(wanted@)[i as int]));
            return false;
        }
        i += 1;
    }
    true
}

/// The ids of the stored quotes that carry every tag of `wanted`, in the
/// order of insertion.
pub fn matching_quote_ids(db: &QuoteStore, wanted: &Vec<String>) -> (ids: Vec<String>)
    ensures
        texts(ids@) == matching_ids(db@, texts(wanted@).to_set()),
{
    let ghost test = carries(texts(wanted@).to_set());
    let mut ids: Vec<String> = Vec::new();
    let mut i: usize = 0;
    proof {
        reveal(Seq::filter);
        assert(db@.take(0) =~= Seq::<Entry>::empty());
        assert(texts(ids@) =~= all_ids(db@.take(0).filter(test)));
    }
    while i < db.entries.len()
        invariant
            i <= db.entries@.len(),
            db@.len() == db.entries@.len(),
            test == carries(texts(wanted@).to_set()),
            texts(ids@) == all_ids(db@.take(i as int).filter(test)),
        decreases db.entries@.len() - i,
    {
        let entry = &db.entries[i];
        proof {
            let before = db@.take(i as int);
            assert(db@.take(i as int + 1) =~= before.push(db@[i as int]));
            before.lemma_filter_push(db@[i as int], test);
        }
        if carries_all(&entry.tags, wanted) {
            let ghost kept = texts(ids@);
            ids.push(entry.quote.id.clone());
            assert(texts(ids@) =~= kept.push(db@[i as int].quote.id));
            assert(all_ids(db@.take(i as int).filter(test).push(db@[i as int])) =~= kept.push(
                db@[i as int].quote.id,
            ));
        }
        i += 1;
    }
    assert(db@.take(db@.len() as int) =~= db@);
    ids
}

/// Searches a quote by tags. The raw tags are normalized; where none is
/// left, the search has no criteria. Else it finds the quotes that carry all
/// of them, and the random draw `draw` picks one.
pub fn get_tagged_quote_id_from_db(db: &QuoteStore, search_tags: &Vec<String>, draw: u64) -> (r:
    TagMatch)
    ensures
        r@ == tag_match(db@, texts(search_tags@), draw as int),
        (forall|i: int| 0 <= i < search_tags@.len() ==> is_blank(#[trigger] texts(search_tags@)[i]))
            ==> r is NoCriteria,
{
    let wanted = normalize_tags(search_tags);
    if wanted.len() == 0 {
        assert(texts(wanted@).to_set() =~= Set::<Seq<char>>::empty());
        return TagMatch::NoCriteria;
    }
    assert(texts(wanted@).to_set().contains(texts(wanted@)[0]));
    let ids = matching_quote_ids(db, &wanted);
    let n = ids.len();
    if n == 0 {
        return TagMatch::NoMatch;
    }
    let k = (draw % (n as u64)) as usize;
    TagMatch::Found(ids[k].clone())
}

/// Whether one of the raw tags has an empty stored form.
pub open spec fn names_empty_tag(raw: Seq<Seq<char>>) -> bool {
    exists|i: int| 0 <= i < raw.len() && tag_normal_form(#[trigger] raw[i]).len() == 0
}

/// What inserting the quote `quote` with the raw tags `raw` does to the
/// entries of a store: a quote whose id is taken is a conflict, one with an
/// empty tag is malformed, and any other is appended with its normalized
/// tags.
pub open spec fn insert_outcome(entries: Seq<Entry>, quote: QuoteView, raw: Seq<Seq<char>>)
    -> Result<Seq<Entry>, QuoteError> {
    if has_id(entries, quote.id) {
        Err(QuoteError::Conflict)
    } else if names_empty_tag(raw) {
        Err(QuoteError::ValidationError)
    } else {
        Ok(entries.push(Entry { quote, tags: normalized_tags(raw) }))
    }
}

/// Whether one of the raw tags has an empty stored form.
fn has_empty_tag(raw: &Vec<String>) -> (r: bool)
    ensures
        r == names_empty_tag(texts(raw@)),
{
    let mut i: usize = 0;
    while i < raw.len()
        invariant
            i <= raw.len(),
            forall|j: int| 0 <= j < i ==> tag_normal_form(#[trigger] texts(raw@)[j]).len() > 0,
        decreases raw.len() - i,
    {
        let tag = normalize_tag(raw[i].as_str());
        if tag.as_str().is_empty() {
            assert(tag_normal_form(texts(raw@)[i as int]).len() == 0);
            return true;
        }
        i += 1;
    }
    false
}

/// Every normalized tag is a stored tag, and there are finitely many.
pub proof fn lemma_normalized_tags_are_stored_tags(raw: Seq<Seq<char>>)
    ensures
        normalized_tags(raw).finite(),
        forall|t: Seq<char>| #[trigger] normalized_tags(raw).contains(t) ==> is_stored_tag(t),
{
    lemma_normalized_list(raw);
    vstd::seq_lib::seq_to_set_is_finite(normalized_list(raw));
}

/// Inserts a quote with its tags, all of it or nothing. Fails with
/// `Conflict` where the id is taken, with `ValidationError` where a tag is
/// empty once normalized, and leaves the store as it was in both cases; else
/// the quote is stored with its normalized tags.
pub fn add_quote_to_db(db: &mut QuoteStore, quote: JsonQuote) -> (r: Result<(), QuoteError>)
    requires
        old(db).wf(),
    ensures
        final(db).wf(),
        match insert_outcome(old(db)@, quote@.quote, texts(quote.tags@)) {
            Ok(entries) => r is Ok && final(db)@ == entries,
            Err(e) => r == Err::<(), QuoteError>(e) && final(db)@ == old(db)@,
        },
{
    if db.position(&quote.id).is_some() {
        return Err(QuoteError::Conflict);
    }
    if has_empty_tag(&quote.tags) {
        return Err(QuoteError::ValidationError);
    }
    let tags = normalize_tags(&quote.tags);
    let ghost raw = texts(quote.tags@);
    let ghost before = db@;
    let ghost entry = Entry { quote: quote@.quote, tags: normalized_tags(raw) };
    let stored = StoredQuote {
        quote: Quote {
            id: quote.id,
            whos_there: quote.whos_there,
            answer_who: quote.answer_who,
            source: quote.source,
        },
        tags,
    };
    assert(stored@ == entry);
    db.entries.push(stored);
    proof {
        assert(db@ =~= before.push(entry));
        lemma_normalized_tags_are_stored_tags(raw);
        assert forall|i: int, j: int| 0 <= i < j < db@.len() implies (#[trigger] db@[i]).quote.id
            != (#[trigger] db@[j]).quote.id by {
            if j == before.len() {
                assert(before[i].quote.id != entry.quote.id);
            } else {
                assert(before[i].quote.id != before[j].quote.id);
            }
        }
        assert forall|i: int| 0 <= i < db@.len() implies (#[trigger] db@[i]).tags.finite() by {
            if i < before.len() {
                assert(before[i].tags.finite());
            }
        }
        assert forall|i: int, t: Seq<char>|
            0 <= i < db@.len() && #[trigger] db@[i].tags.contains(t) implies is_stored_tag(t) by {
            if i < before.len() {
                assert(before[i].tags.contains(t));
            }
        }
        assert forall|i: int| 0 <= i < db.entries@.len() implies texts(
            (#[trigger] db.entries@[i]).tags@,
        ).no_duplicates() by {
            if i < before.len() {
                assert(old(db).entries@[i] == db.entries@[i]);
            }
        }
    }
    Ok(())
}

/// What loading one record does to the entries of a store. The empty tags
/// of the record are left out. Where the id is new the quote is appended;
/// where it is taken the stored quote stays and gains the record's tags.
pub open spec fn load_one(entries: Seq<Entry>, quote: QuoteView, raw: Seq<Seq<char>>) -> Seq<
    Entry,
> {
    let tags = normalized_tags(raw);
    if has_id(entries, quote.id) {
        let i = index_with_id(entries, quote.id);
        entries.update(i, Entry { quote: entries[i].quote, tags: entries[i].tags.union(tags) })
    } else {
        entries.push(Entry { quote, tags })
    }
}

/// What loading the records, one after the other, does to the entries of a
/// store.
pub open spec fn load_all(entries: Seq<Entry>, records: Seq<JsonQuote>) -> Seq<Entry>
    decreases records.len(),
{
    if records.len() == 0 {
        entries
    } else {
        let record = records.last();
        load_one(load_all(entries, records.drop_last()), record@.quote, texts(record.tags@))
    }
}

/// Loading one record into a well-formed store leaves it well-formed.
pub proof fn lemma_load_one_well_formed(entries: Seq<Entry>, quote: QuoteView, raw: Seq<Seq<char>>)
    requires
        well_formed(entries),
    ensures
        well_formed(load_one(entries, quote, raw)),
        has_id(load_one(entries, quote, raw), quote.id),
{
    let tags = normalized_tags(raw);
    let after = load_one(entries, quote, raw);
    lemma_normalized_tags_are_stored_tags(raw);
    if has_id(entries, quote.id) {
        let k = index_with_id(entries, quote.id);
        assert(after[k].quote.id == quote.id);
        assert forall|i: int, j: int| 0 <= i < j < after.len() implies (#[trigger] after[i]).quote.id
            != (#[trigger] after[j]).quote.id by {
            assert(entries[i].quote.id != entries[j].quote.id);
        }
        assert forall|i: int| 0 <= i < after.len() implies (#[trigger] after[i]).tags.finite() by {
            assert(entries[i].tags.finite());
        }
        assert forall|i: int, t: Seq<char>|
            0 <= i < after.len() && #[trigger] after[i].tags.contains(t) implies is_stored_tag(
            t,
        ) by {
            if !tags.contains(t) {
                assert(entries[i].tags.contains(t));
            }
        }
    } else {
        assert(after[after.len() - 1].quote.id == quote.id);
        assert forall|i: int, j: int| 0 <= i < j < after.len() implies (#[trigger] after[i]).quote.id
            != (#[trigger] after[j]).quote.id by {
            if j == entries.len() {
                assert(entries[i].quote.id != quote.id);
            } else {
                assert(entries[i].quote.id != entries[j].quote.id);
            }
        }
        assert forall|i: int| 0 <= i < after.len() implies (#[trigger] after[i]).tags.finite() by {
            if i < entries.len() {
                assert(entries[i].tags.finite());
            }
        }
        assert forall|i: int, t: Seq<char>|
            0 <= i < after.len() && #[trigger] after[i].tags.contains(t) implies is_stored_tag(
            t,
        ) by {
            if i < entries.len() {
                assert(entries[i].tags.contains(t));
            }
        }
    }
}

/// The strings of `base`, followed by those of `extra` that were not there
/// yet.
fn merge_texts(base: &Vec<String>, extra: &Vec<String>) -> (out: Vec<String>)
    requires
        texts(base@).no_duplicates(),
    ensures
        texts(out@).no_duplicates(),
        texts(out@).to_set() == texts(base@).to_set().union(texts(extra@).to_set()),
{
    let mut out = copy_texts(base);
    let mut i: usize = 0;
    assert(texts(extra@).take(0).to_set() =~= Set::<Seq<char>>::empty());
    assert(texts(out@).to_set() =~= texts(base@).to_set().union(texts(extra@).take(0).to_set()));
    while i < extra.len()
        invariant
            i <= extra.len(),
            texts(out@).no_duplicates(),
            texts(out@).to_set() == texts(base@).to_set().union(
                texts(extra@).take(i as int).to_set(),
            ),
        decreases extra.len() - i,
    {
        let ghost seen = texts(extra@).take(i as int);
        let ghost item = extra@[i as int]@;
        proof {
            assert(texts(extra@).take(i as int + 1) =~= seen.push(item));
            seen.lemma_push_to_set_commute(item);
        }
        if !contains_text(&out, &extra[i]) {
            let ghost kept = texts(out@);
            out.push(extra[i].clone());
            proof {
                assert(texts(out@) =~= kept.push(item));
                kept.lemma_push_to_set_commute(item);
                assert(texts(out@).to_set() =~= texts(base@).to_set().union(
                    seen.push(item).to_set(),
                ));
            }
        } else {
            assert(texts(out@).to_set() =~= texts(base@).to_set().union(seen.push(item).to_set()));
        }
        i += 1;
    }
    assert(texts(extra@).take(extra.len() as int) =~= texts(extra@));
    out
}

impl QuoteStore {
    /// Loads one record: see `load_one`.
    fn load_record(&mut self, record: &JsonQuote)
        requires
            old(self).wf(),
        ensures
            final(self).wf(),
            final(self)@ == load_one(old(self)@, record@.quote, texts(record.tags@)),
    {
        let ghost before = self@;
        let ghost raw = texts(record.tags@);
        let tags = normalize_tags(&record.tags);
        proof {
            lemma_load_one_well_formed(before, record@.quote, raw);
        }
        match self.position(&record.id) {
            Some(i) => {
                proof {
                    lemma_index_with_id(before, i as int);
                }
                let merged = merge_texts(&self.entries[i].tags, &tags);
                let stored = StoredQuote { quote: copy_quote(&self.entries[i].quote), tags: merged };
                self.entries.set(i, stored);
                assert(self@ =~= load_one(before, record@.quote, raw));
                assert forall|j: int| 0 <= j < self.entries@.len() implies texts(
                    (#[trigger] self.entries@[j]).tags@,
                ).no_duplicates() by {
                    if j != i {
                        assert(old(self).entries@[j] == self.entries@[j]);
                    }
                }
            },
            None => {
                let stored = StoredQuote { quote: record.to_quote().0, tags };
                self.entries.push(stored);
                assert(self@ =~= load_one(before, record@.quote, raw));
                assert forall|j: int| 0 <= j < self.entries@.len() implies texts(
                    (#[trigger] self.entries@[j]).tags@,
                ).no_duplicates() by {
                    if j < before.len() {
                        assert(old(self).entries@[j] == self.entries@[j]);
                    }
                }
            },
        }
    }
}

/// Loads records in bulk, one after the other. A record whose id is new is
/// stored with its normalized tags; one whose id is taken leaves the stored
/// quote as it is and adds its tags to it. Empty tags are left out.
pub fn load_quotes(db: &mut QuoteStore, records: &Vec<JsonQuote>)
    requires
        old(db).wf(),
    ensures
        final(db).wf(),
        final(db)@ == load_all(old(db)@, records@),
{
    let mut i: usize = 0;
    assert(records@.take(0) =~= Seq::<JsonQuote>::empty());
    while i < records.len()
        invariant
            i <= records.len(),
            db.wf(),
            db@ == load_all(old(db)@, records@.take(i as int)),
        decreases records.len() - i,
    {
        proof {
            let prefix = records@.take(i as int + 1);
            assert(prefix.drop_last() =~= records@.take(i as int));
            assert(prefix.last() == records@[i as int]);
        }
        db.load_record(&records[i]);
        i += 1;
    }
    assert(records@.take(records.len() as int) =~= records@);
}

} // verus!
