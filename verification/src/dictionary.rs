//! The spelling dictionary of an open project: the words the user chose to ignore, and the
//! names of the project's characters and places, are added to it so that they are not
//! flagged, and names that are no longer used are taken out again.
use vstd::prelude::*;
use vstd::multiset::Multiset;
use spellbook::Dictionary;
use crate::text::{chars_of, push_char, str_equal};
use crate::reference::ObjectEntry;
use crate::events::{clone_path, comps};
use crate::schema::{character_type, place_type, character_v, place_v};

verus! {

/// `spellbook::Dictionary`, held as an opaque value.
#[verifier::external_type_specification]
#[verifier::external_body]
#[verifier::reject_recursive_types(S)]
pub struct ExDictionary<S>(spellbook::Dictionary<S>);

/// The hasher that a `spellbook::Dictionary` is made with by default, held as an opaque
/// value.
#[verifier::external_type_specification]
#[verifier::external_body]
pub struct ExDefaultHashBuilder(spellbook::DefaultHashBuilder);

/// The words that the dictionary `d` accepts as correctly spelled.
pub uninterp spec fn accepted_words(d: Dictionary) -> Set<Seq<char>>;

/// `Dictionary::check`: whether the dictionary `d` accepts `word`.
#[verifier::external_body]
fn check_word(d: &Dictionary, word: &str) -> (r: bool)
    ensures
        r == accepted_words(*d).contains(word@),
{
    d.check(word)
}

/// The stems in the word list of the dictionary `d` (a word may be listed more than once).
pub uninterp spec fn dictionary_stems(d: Dictionary) -> Multiset<Seq<char>>;

/// The characters that the dictionary `d` leaves out of the words it is given (its `IGNORE`
/// rule).
pub uninterp spec fn dictionary_ignored_chars(d: Dictionary) -> Set<char>;

/// A `.dic` line that is just a word: no flags after a `/`, no escapes, no space or tab.
pub open spec fn plain_dic_line(line: Seq<char>) -> bool {
    forall|i: int| 0 <= i < line.len() ==> line[i] != '/' && line[i] != '\\' && line[i] != ' ' && line[i] != '\t'
}

/// `w` without the characters in `cs`.
pub open spec fn without_chars(w: Seq<char>, cs: Set<char>) -> Seq<char> {
    w.filter(|c: char| !cs.contains(c))
}

/// `after` is the dictionary `before` with the `.dic` line `line` added, or unchanged: its
/// rules stay, and one stem joins its word list; for a plain word, that word without the
/// characters the dictionary ignores.
pub open spec fn adds_line(before: Dictionary, after: Dictionary, line: Seq<char>) -> bool {
    &&& dictionary_ignored_chars(after) == dictionary_ignored_chars(before)
    &&& (after == before || exists|stem: Seq<char>| #[trigger] dictionary_stems(before).insert(stem) == dictionary_stems(after))
    &&& plain_dic_line(line) ==> dictionary_stems(after)
        == dictionary_stems(before).insert(without_chars(line, dictionary_ignored_chars(before)))
}

/// `Dictionary::add`: reads `word` as a line of a `.dic` file and adds its stem to the word
/// list of `d` (spellbook's `parse_dic_line`, then `HashBag::insert`, which keeps
/// duplicates); `false` where the flags in the line cannot be read (its error), and then
/// `d` is unchanged. A plain word is always added, as itself without the ignored
/// characters. What the dictionary accepts afterwards is not stated: that depends on the
/// flags and on the dictionary's rules.
#[verifier::external_body]
fn add_word(d: &mut Dictionary, word: &str) -> (r: bool)
    ensures
        adds_line(*old(d), *final(d), word@),
        !r ==> *final(d) == *old(d),
        r ==> exists|stem: Seq<char>| #[trigger] dictionary_stems(*old(d)).insert(stem) == dictionary_stems(*final(d)),
        plain_dic_line(word@) ==> r,
{
    d.add(word).is_ok()
}

/// The words that the dictionary described by the contents `aff` and `dic` of a Hunspell
/// affix file and word list accepts, or `None` where they cannot be read.
pub uninterp spec fn parsed_dictionary(aff: Seq<char>, dic: Seq<char>) -> Option<Set<Seq<char>>>;

/// `Dictionary::new`: the dictionary that the contents `aff` and `dic` of a Hunspell affix
/// file and word list describe, or `None` where they cannot be read (its error). Whether
/// they can be read, and the words the dictionary accepts, depend on `aff` and `dic` alone
/// (the hasher the dictionary is made with does not change which words it holds); they are
/// named, not stated.
#[verifier::external_body]
fn parse_dictionary(aff: &str, dic: &str) -> (r: Option<Dictionary>)
    ensures
        match r {
            Some(d) => parsed_dictionary(aff@, dic@) == Some(accepted_words(d)),
            None => parsed_dictionary(aff@, dic@) is None,
        },
{
    match Dictionary::new(aff, dic) {
        Ok(d) => Some(d),
        Err(_) => None,
    }
}

/// `Dictionary::clone` (derived: the word list and the rules are copied), which accepts
/// the same words and holds the same stems and rules.
#[verifier::external_body]
fn clone_dictionary(d: &Dictionary) -> (r: Dictionary)
    ensures
        accepted_words(r) == accepted_words(*d),
        dictionary_stems(r) == dictionary_stems(*d),
        dictionary_ignored_chars(r) == dictionary_ignored_chars(*d),
{
    d.clone()
}

/// The words of a list, as values.
pub open spec fn word_seq(v: Seq<String>) -> Seq<Seq<char>> {
    v.map_values(|s: String| s@)
}

/// The words of a list, as a set.
pub open spec fn word_set(v: Seq<String>) -> Set<Seq<char>> {
    word_seq(v).to_set()
}

/// Whether `word` is in the list `v`.
fn contains_word(v: &Vec<String>, word: &str) -> (r: bool)
    ensures
        r == word_set(v@).contains(word@),
{
    let mut i: usize = 0;
    while i < v.len()
        invariant
            i <= v.len(),
            forall|j: int| 0 <= j < i ==> v@[j]@ != word@,
        decreases v.len() - i,
    {
        if str_equal(v[i].as_str(), word) {
            assert(word_seq(v@)[i as int] == word@);
            return true;
        }
        i = i + 1;
    }
    assert(!word_seq(v@).contains(word@)) by {
        if word_seq(v@).contains(word@) {
            let k = choose|k: int| 0 <= k < word_seq(v@).len() && word_seq(v@)[k] == word@;
            assert(v@[k]@ == word@);
        }
    }
    false
}

/// Adds `word` to the list `v` of distinct words, unless it is there already.
fn insert_word(v: &mut Vec<String>, word: &str)
    requires
        word_seq(old(v)@).no_duplicates(),
    ensures
        word_seq(final(v)@).no_duplicates(),
        word_set(final(v)@) == word_set(old(v)@).insert(word@),
{
    if !contains_word(v, word) {
        let ghost before = v@;
        v.push(word.to_string());
        proof {
            assert(word_seq(v@) =~= word_seq(before).push(word@));
            word_seq(before).lemma_push_to_set_commute(word@);
        }
    } else {
        assert(word_set(v@) =~= word_set(v@).insert(word@));
    }
}

/// Whether `c` separates the words of a name.
pub open spec fn is_name_separator(c: char) -> bool {
    c == ' ' || c == '/'
}

/// The parts of `s` between separators, empty parts included (as `str::split` gives them).
pub open spec fn name_parts(s: Seq<char>) -> Seq<Seq<char>>
    decreases s.len(),
{
    if s.len() == 0 {
        seq![Seq::<char>::empty()]
    } else {
        let p = name_parts(s.drop_last());
        if is_name_separator(s.last()) {
            p.push(Seq::<char>::empty())
        } else {
            p.update(p.len() - 1, p.last().push(s.last()))
        }
    }
}

proof fn lemma_name_parts_nonempty(s: Seq<char>)
    ensures
        name_parts(s).len() >= 1,
    decreases s.len(),
{
    if s.len() > 0 {
        lemma_name_parts_nonempty(s.drop_last());
    }
}

/// `s` without the double quotes at its start.
pub open spec fn strip_leading_quotes(s: Seq<char>) -> Seq<char>
    decreases s.len(),
{
    if s.len() > 0 && s[0] == '"' { strip_leading_quotes(s.drop_first()) } else { s }
}

/// `s` without the double quotes at its end.
pub open spec fn strip_trailing_quotes(s: Seq<char>) -> Seq<char>
    decreases s.len(),
{
    if s.len() > 0 && s.last() == '"' { strip_trailing_quotes(s.drop_last()) } else { s }
}

/// `s` without double quotes at either end (`str::trim_matches('"')`).
pub open spec fn trim_quotes(s: Seq<char>) -> Seq<char> {
    strip_trailing_quotes(strip_leading_quotes(s))
}

proof fn lemma_strip_leading(s: Seq<char>, k: int)
    requires
        0 <= k <= s.len(),
        forall|j: int| 0 <= j < k ==> s[j] == '"',
        k == s.len() || s[k] != '"',
    ensures
        strip_leading_quotes(s) == s.skip(k),
    decreases k,
{
    if k > 0 {
        lemma_strip_leading(s.drop_first(), k - 1);
        assert(s.drop_first().skip(k - 1) =~= s.skip(k));
    } else {
        assert(s.skip(0) =~= s);
    }
}

proof fn lemma_strip_trailing(s: Seq<char>, k: int)
    requires
        0 <= k <= s.len(),
        forall|j: int| s.len() - k <= j < s.len() ==> s[j] == '"',
        k == s.len() || s[s.len() - 1 - k] != '"',
    ensures
        strip_trailing_quotes(s) == s.take(s.len() - k),
    decreases k,
{
    if k > 0 {
        lemma_strip_trailing(s.drop_last(), k - 1);
        assert(s.drop_last().take(s.len() - 1 - (k - 1)) =~= s.take(s.len() - k));
    } else {
        assert(s.take(s.len() as int) =~= s);
    }
}

/// The characters `v[a..b]` as a string.
fn string_of(v: &Vec<char>, a: usize, b: usize) -> (r: String)
    requires
        a <= b <= v.len(),
    ensures
        r@ == v@.subrange(a as int, b as int),
{
    let mut out = String::new();
    let mut i: usize = a;
    while i < b
        invariant
            a <= i <= b <= v.len(),
            out@ == v@.subrange(a as int, i as int),
        decreases b - i,
    {
        push_char(&mut out, v[i]);
        assert(out@ =~= v@.subrange(a as int, i + 1));
        i = i + 1;
    }
    out
}

/// The part `v` of a name without the double quotes at either end.
fn trimmed_part(v: &Vec<char>) -> (r: String)
    ensures
        r@ == trim_quotes(v@),
{
    let mut a: usize = 0;
    while a < v.len() && v[a] == '"'
        invariant
            a <= v.len(),
            forall|j: int| 0 <= j < a ==> v@[j] == '"',
        decreases v.len() - a,
    {
        a = a + 1;
    }
    proof {
        lemma_strip_leading(v@, a as int);
    }
    let ghost t = v@.skip(a as int);
    let mut k: usize = 0;
    while k < v.len() - a && v[v.len() - 1 - k] == '"'
        invariant
            a <= v.len(),
            t == v@.skip(a as int),
            k <= v.len() - a,
            forall|j: int| t.len() - k <= j < t.len() ==> #[trigger] t[j] == '"',
        decreases v.len() - a - k,
    {
        assert(t[t.len() - 1 - k] == v@[v.len() - 1 - k]);
        k = k + 1;
    }
    proof {
        if k < v.len() - a {
            assert(t[t.len() - 1 - k] == v@[v.len() - 1 - k]);
        }
        lemma_strip_trailing(t, k as int);
        assert(t.take(t.len() - k) =~= v@.subrange(a as int, v.len() - k));
    }
    string_of(v, a, v.len() - k)
}

/// The words of the parts `parts` of a name that are kept as names: those in `old_names`, or
/// that the dictionary (which accepts `accepted`) does not accept.
pub open spec fn kept_name_words(parts: Seq<Seq<char>>, old_names: Set<Seq<char>>, accepted: Set<Seq<char>>) -> Set<Seq<char>>
    decreases parts.len(),
{
    if parts.len() == 0 {
        Set::empty()
    } else {
        let w = trim_quotes(parts.last());
        let rest = kept_name_words(parts.drop_last(), old_names, accepted);
        if old_names.contains(w) || !accepted.contains(w) { rest.insert(w) } else { rest }
    }
}

/// The words kept as names from each of `names`.
pub open spec fn kept_names(names: Seq<Seq<char>>, old_names: Set<Seq<char>>, accepted: Set<Seq<char>>) -> Set<Seq<char>>
    decreases names.len(),
{
    if names.len() == 0 {
        Set::empty()
    } else {
        kept_names(names.drop_last(), old_names, accepted).union(
            kept_name_words(name_parts(names.last()), old_names, accepted))
    }
}

/// The names that an object gives to the spelling dictionary: its name, for a character or
/// a place with a name.
pub open spec fn spellcheck_names(objects: Seq<crate::reference::EntryV>) -> Seq<Seq<char>>
    decreases objects.len(),
{
    if objects.len() == 0 {
        Seq::empty()
    } else {
        let e = objects.last();
        let rest = spellcheck_names(objects.drop_last());
        if (e.file_type.identifier == character_v().identifier || e.file_type.identifier == place_v().identifier)
            && e.name.len() > 0 {
            rest.push(e.name)
        } else {
            rest
        }
    }
}

impl ObjectEntry {
    /// The words this object adds to the spelling dictionary: the name of a character or of
    /// a place, where it has one.
    pub fn provide_spellcheck_additions(&self) -> (r: Vec<String>)
        ensures
            word_seq(r@) == spellcheck_names(seq![self@]),
    {
        let kind_named = self.file_type.same_type(&character_type()) || self.file_type.same_type(&place_type());
        let mut r: Vec<String> = Vec::new();
        let ghost one = seq![self@];
        assert(one.drop_last() =~= Seq::<crate::reference::EntryV>::empty());
        assert(one.last() == self@);
        assert(spellcheck_names(one.drop_last()) == Seq::<Seq<char>>::empty());
        if kind_named && !self.name.as_str().is_empty() {
            let n = self.name.as_str().to_string();
            r.push(n);
            assert(word_seq(r@) =~= seq![self.name@]);
        } else {
            assert(word_seq(r@) =~= Seq::<Seq<char>>::empty());
        }
        r
    }
}

/// `a` and `b` hold the same words: they accept the same words, list the same stems and
/// leave out the same characters.
pub open spec fn same_words(a: Dictionary, b: Dictionary) -> bool {
    &&& accepted_words(a) == accepted_words(b)
    &&& dictionary_stems(a) == dictionary_stems(b)
    &&& dictionary_ignored_chars(a) == dictionary_ignored_chars(b)
}

/// `after` is `before` once `word` is ignored again: added as a line where `before` does
/// not accept it ([`adds_line`]), else unchanged.
pub open spec fn re_ignores(before: Dictionary, after: Dictionary, word: Seq<char>) -> bool {
    if accepted_words(before).contains(word) {
        after == before
    } else {
        adds_line(before, after, word)
    }
}

/// `ds` takes a dictionary through ignoring each of `words` again, in order.
pub open spec fn re_ignores_all(ds: Seq<Dictionary>, words: Seq<Seq<char>>) -> bool {
    &&& ds.len() == words.len() + 1
    &&& forall|i: int| 0 <= i < words.len() ==> re_ignores(ds[i], ds[i + 1], #[trigger] words[i])
}

/// `after` (a dictionary and the names noted as added to it) is `before` once the name
/// `word` is synced: a name already noted or accepted changes nothing; any other is added
/// to the dictionary and noted, unless its line cannot be read (then nothing changes, and
/// it is not a plain word).
pub open spec fn name_synced(before: (Dictionary, Set<Seq<char>>), after: (Dictionary, Set<Seq<char>>), word: Seq<char>) -> bool {
    if before.1.contains(word) || accepted_words(before.0).contains(word) {
        after == before
    } else {
        ||| after.1 == before.1.insert(word) && adds_line(before.0, after.0, word)
            && exists|stem: Seq<char>| #[trigger] dictionary_stems(before.0).insert(stem) == dictionary_stems(after.0)
        ||| after == before && !plain_dic_line(word)
    }
}

/// `ss` takes a dictionary and its noted names through syncing each of `names`, in order.
pub open spec fn names_synced_all(ss: Seq<(Dictionary, Set<Seq<char>>)>, names: Seq<Seq<char>>) -> bool {
    &&& ss.len() == names.len() + 1
    &&& forall|i: int| 0 <= i < names.len() ==> name_synced(ss[i], ss[i + 1], #[trigger] names[i])
}

/// `s` is the state of a project's dictionary just loaded from files whose words are
/// `parsed` (none where they could not be read), before any word is ignored: the dictionary
/// in use and the fresh copy hold the same words, and nothing is added or noted.
pub open spec fn fresh_state(s: DictionaryState, parsed: Option<Set<Seq<char>>>) -> bool {
    &&& s.dict() is Some == parsed is Some
    &&& s.fresh() is Some == parsed is Some
    &&& (s.dict() matches Some(d) ==> parsed == Some(accepted_words(d)) && same_words(s.fresh()->0, d))
    &&& s.ignored() == Set::<Seq<char>>::empty()
    &&& s.names() == Set::<Seq<char>>::empty()
    &&& s.old_names() == Set::<Seq<char>>::empty()
    &&& s.added() == Set::<Seq<char>>::empty()
    &&& !s.updated()
}

/// `states` takes a dictionary state through ignoring each of `words` in turn, `rs` being
/// what each step returned.
pub open spec fn ignores_in_turn(states: Seq<DictionaryState>, words: Seq<Seq<char>>, rs: Seq<bool>) -> bool {
    &&& states.len() == words.len() + 1
    &&& rs.len() == words.len()
    &&& forall|i: int| 0 <= i < words.len() ==> states[i].ignores(states[i + 1], words[i], #[trigger] rs[i])
}

proof fn lemma_ignored_up_to(states: Seq<DictionaryState>, words: Seq<Seq<char>>, rs: Seq<bool>, k: int)
    requires
        ignores_in_turn(states, words, rs),
        0 <= k <= words.len(),
    ensures
        forall|i: int| 0 <= i < k && rs[i] ==> #[trigger] states[k].ignored().contains(words[i]),
        forall|w: Seq<char>| #[trigger] states[k].ignored().contains(w) ==> states[0].ignored().contains(w)
            || exists|i: int| 0 <= i < k && rs[i] && words[i] == w,
    decreases k,
{
    if k > 0 {
        lemma_ignored_up_to(states, words, rs, k - 1);
        assert(states[k - 1].ignores(states[k], words[k - 1], rs[k - 1]));
        assert forall|w: Seq<char>| #[trigger] states[k].ignored().contains(w) implies states[0].ignored().contains(w)
            || exists|i: int| 0 <= i < k && rs[i] && words[i] == w by {
            if !states[k - 1].ignored().contains(w) {
                assert(rs[k - 1] && words[k - 1] == w);
            }
        }
    }
}

/// Ignoring words in turn ends with exactly the words ignored before, and each word that the
/// dictionary did not accept when its turn came.
pub proof fn ignored_in_turn(states: Seq<DictionaryState>, words: Seq<Seq<char>>, rs: Seq<bool>)
    requires
        ignores_in_turn(states, words, rs),
    ensures
        forall|w: Seq<char>| #[trigger] states.last().ignored().contains(w) <==> states[0].ignored().contains(w)
            || exists|i: int| 0 <= i < words.len() && rs[i] && words[i] == w,
        forall|i: int| 0 <= i < words.len() ==> (#[trigger] rs[i] <==> states[i].dict() is Some
            && !accepted_words(states[i].dict()->0).contains(words[i])),
{
    lemma_ignored_up_to(states, words, rs, words.len() as int);
    let n = words.len() as int;
    assert(states.last() == states[n]);
    assert forall|w: Seq<char>| states[0].ignored().contains(w) implies #[trigger] states[n].ignored().contains(w) by {
        lemma_ignored_grows(states, words, rs, n, w);
    }
    assert forall|i: int| 0 <= i < words.len() implies (#[trigger] rs[i] <==> states[i].dict() is Some
        && !accepted_words(states[i].dict()->0).contains(words[i])) by {
        assert(states[i].ignores(states[i + 1], words[i], rs[i]));
    }
}

proof fn lemma_ignored_grows(states: Seq<DictionaryState>, words: Seq<Seq<char>>, rs: Seq<bool>, k: int, w: Seq<char>)
    requires
        ignores_in_turn(states, words, rs),
        0 <= k <= words.len(),
        states[0].ignored().contains(w),
    ensures
        states[k].ignored().contains(w),
    decreases k,
{
    if k > 0 {
        lemma_ignored_grows(states, words, rs, k - 1, w);
        assert(states[k - 1].ignores(states[k], words[k - 1], rs[k - 1]));
    }
}

/// The spelling dictionary of a project, with the words added to it.
#[derive(Debug)]
pub struct DictionaryState {
    pub dictionary: Option<Dictionary>,
    fresh_dictionary: Option<Dictionary>,
    /// The words that are explicitly ignored (they are kept in the data file).
    ignored_words: Vec<String>,
    characters_and_places: Vec<String>,
    old_characters_and_places: Vec<String>,
    added_file_object_names: Vec<String>,
    pub ignore_list_updated: bool,
}

impl DictionaryState {
    /// The dictionary in use.
    pub closed spec fn dict(&self) -> Option<Dictionary> {
        self.dictionary
    }

    /// The dictionary as it was loaded, before any word was added.
    pub closed spec fn fresh(&self) -> Option<Dictionary> {
        self.fresh_dictionary
    }

    /// The words that the user chose to ignore.
    pub closed spec fn ignored(&self) -> Set<Seq<char>> {
        word_set(self.ignored_words@)
    }

    /// The ignored words, in the order they were added.
    pub closed spec fn ignored_list(&self) -> Seq<Seq<char>> {
        word_seq(self.ignored_words@)
    }

    /// The words of the names of the characters and places of the project.
    pub closed spec fn names(&self) -> Set<Seq<char>> {
        word_set(self.characters_and_places@)
    }

    /// The words of the names, in the order they were gathered.
    pub closed spec fn names_list(&self) -> Seq<Seq<char>> {
        word_seq(self.characters_and_places@)
    }

    /// The words of the names before they were last gathered again.
    pub closed spec fn old_names(&self) -> Set<Seq<char>> {
        word_set(self.old_characters_and_places@)
    }

    /// The words of names that were added to the dictionary.
    pub closed spec fn added(&self) -> Set<Seq<char>> {
        word_set(self.added_file_object_names@)
    }

    /// Whether the ignored words changed since the flag was last cleared.
    pub closed spec fn updated(&self) -> bool {
        self.ignore_list_updated
    }

    /// Whether the ignored words changed since the flag was last cleared.
    pub fn is_ignore_list_updated(&self) -> (r: bool)
        ensures
            r == self.updated(),
    {
        self.ignore_list_updated
    }

    /// No word is listed twice.
    pub closed spec fn wf(&self) -> bool {
        &&& word_seq(self.ignored_words@).no_duplicates()
        &&& word_seq(self.characters_and_places@).no_duplicates()
        &&& word_seq(self.old_characters_and_places@).no_duplicates()
        &&& word_seq(self.added_file_object_names@).no_duplicates()
    }

    /// A state around the dictionary `dict` (if one could be loaded), with nothing added.
    pub fn new(dict: Option<Dictionary>) -> (r: Self)
        ensures
            r.wf(),
            r.dict() == dict,
            r.fresh() is Some == dict is Some,
            dict matches Some(d) ==> same_words(r.fresh()->0, d),
            r.ignored() == Set::<Seq<char>>::empty(),
            r.names() == Set::<Seq<char>>::empty(),
            r.old_names() == Set::<Seq<char>>::empty(),
            r.added() == Set::<Seq<char>>::empty(),
            !r.updated(),
    {
        let fresh = match &dict {
            Some(d) => Some(clone_dictionary(d)),
            None => None,
        };
        let r = DictionaryState {
            dictionary: dict,
            fresh_dictionary: fresh,
            ignored_words: Vec::new(),
            characters_and_places: Vec::new(),
            old_characters_and_places: Vec::new(),
            added_file_object_names: Vec::new(),
            ignore_list_updated: false,
        };
        assert(word_set(r.ignored_words@) =~= Set::<Seq<char>>::empty());
        assert(word_set(r.characters_and_places@) =~= Set::<Seq<char>>::empty());
        assert(word_set(r.old_characters_and_places@) =~= Set::<Seq<char>>::empty());
        assert(word_set(r.added_file_object_names@) =~= Set::<Seq<char>>::empty());
        r
    }

    /// Ignores `ignored_word`, as [`DictionaryState::add_ignored_startup`] does, and notes
    /// that the ignored words changed when it was added.
    pub fn add_ignored(&mut self, ignored_word: &str) -> (r: bool)
        requires
            old(self).wf(),
        ensures
            final(self).wf(),
            old(self).ignores(*final(self), ignored_word@, r),
            final(self).updated() == (old(self).updated() || r),
    {
        let r = self.add_ignored_startup(ignored_word);
        if r {
            self.ignore_list_updated = true;
        }
        r
    }

    /// `next` is this state after ignoring `word` returned `r`: the word is added (to the
    /// dictionary, as a `.dic` line, see [`adds_line`], and to the ignored words) exactly
    /// when there is a dictionary that does not accept it yet; the names are not touched.
    pub open spec fn ignores(self, next: Self, word: Seq<char>, r: bool) -> bool {
        &&& r == (self.dict() is Some && !accepted_words(self.dict()->0).contains(word))
        &&& next.ignored() == (if r { self.ignored().insert(word) } else { self.ignored() })
        &&& r ==> (next.dict() matches Some(nd) && adds_line(self.dict()->0, nd, word))
        &&& !r ==> next.dict() == self.dict()
        &&& next.dict() is Some == self.dict() is Some
        &&& next.fresh() == self.fresh()
        &&& next.names() == self.names()
        &&& next.old_names() == self.old_names()
        &&& next.added() == self.added()
    }

    /// Ignores `ignored_word` without counting as a change of the ignored words (for words
    /// added at startup): where the dictionary does not accept the word, it is added to the
    /// dictionary and to the ignored words. Returns whether it was.
    pub fn add_ignored_startup(&mut self, ignored_word: &str) -> (r: bool)
        requires
            old(self).wf(),
        ensures
            final(self).wf(),
            old(self).ignores(*final(self), ignored_word@, r),
            final(self).updated() == old(self).updated(),
    {
        let r = match &mut self.dictionary {
            Some(dictionary) => {
                if !check_word(dictionary, ignored_word) {
                    add_word(dictionary, ignored_word);
                    true
                } else {
                    false
                }
            },
            None => false,
        };
        if r {
            insert_word(&mut self.ignored_words, ignored_word);
        }
        r
    }

    /// Gathers the words of `object_name`, a name of a character or a place, split at spaces
    /// and slashes and without double quotes at either end: where there is a dictionary, each
    /// word that was a name before or that the dictionary does not accept becomes a name.
    pub fn add_file_object_name(&mut self, object_name: &str)
        requires
            old(self).wf(),
        ensures
            final(self).wf(),
            final(self).names() == (match old(self).dict() {
                Some(d) => old(self).names().union(
                    kept_name_words(name_parts(object_name@), old(self).old_names(), accepted_words(d))),
                None => old(self).names(),
            }),
            final(self).dict() == old(self).dict(),
            final(self).fresh() == old(self).fresh(),
            final(self).ignored() == old(self).ignored(),
            final(self).old_names() == old(self).old_names(),
            final(self).added() == old(self).added(),
            final(self).updated() == old(self).updated(),
    {
        let dictionary = match &self.dictionary {
            Some(d) => d,
            None => {
                return;
            },
        };
        let ghost accepted = accepted_words(*dictionary);
        let ghost olds = word_set(self.old_characters_and_places@);
        let ghost base = word_set(self.characters_and_places@);
        let v = chars_of(object_name);
        let mut current: Vec<char> = Vec::new();
        let mut i: usize = 0;
        proof {
            assert(v@.take(0) =~= Seq::<char>::empty());
            lemma_name_parts_nonempty(v@.take(0));
        }
        while i < v.len()
            invariant
                v@ == object_name@,
                i <= v.len(),
                accepted == accepted_words(*dictionary),
                olds == word_set(self.old_characters_and_places@),
                word_seq(self.characters_and_places@).no_duplicates(),
                self.dictionary == old(self).dictionary,
                self.fresh_dictionary == old(self).fresh_dictionary,
                self.ignored_words == old(self).ignored_words,
                self.old_characters_and_places == old(self).old_characters_and_places,
                self.added_file_object_names == old(self).added_file_object_names,
                self.ignore_list_updated == old(self).ignore_list_updated,
                old(self).wf(),
                current@ == name_parts(v@.take(i as int)).last(),
                word_set(self.characters_and_places@) == base.union(kept_name_words(
                name_parts(v@.take(i as int)).drop_last(), olds, accepted)),
            decreases v.len() - i,
        {
            let c = v[i];
            let ghost before = name_parts(v@.take(i as int));
            proof {
                assert(v@.take(i + 1).drop_last() =~= v@.take(i as int));
                lemma_name_parts_nonempty(v@.take(i as int));
            }
            if c == ' ' || c == '/' {
                let t = trimmed_part(&current);
                if contains_word(&self.old_characters_and_places, t.as_str()) || !check_word(dictionary, t.as_str()) {
                    insert_word(&mut self.characters_and_places, t.as_str());
                }
                current = Vec::new();
                proof {
                    let after = name_parts(v@.take(i + 1));
                    assert(after == before.push(Seq::<char>::empty()));
                    assert(after.drop_last() =~= before);
                    assert(before.drop_last().push(before.last()) =~= before);
                }
            } else {
                current.push(c);
                proof {
                    let after = name_parts(v@.take(i + 1));
                    assert(after.drop_last() =~= before.drop_last());
                }
            }
            i = i + 1;
        }
        proof {
            assert(v@.take(v.len() as int) =~= v@);
            lemma_name_parts_nonempty(v@);
        }
        let t = trimmed_part(&current);
        if contains_word(&self.old_characters_and_places, t.as_str()) || !check_word(dictionary, t.as_str()) {
            insert_word(&mut self.characters_and_places, t.as_str());
        }
        proof {
            let ps = name_parts(v@);
            assert(ps.drop_last().push(ps.last()) =~= ps);
        }
    }

    /// Gathers the names of the characters and places among `objects` again, as
    /// [`DictionaryState::add_file_object_name`] does for each, the names gathered before
    /// becoming the old names.
    pub fn update_spellcheck_file_object_names(&mut self, objects: &Vec<ObjectEntry>)
        requires
            old(self).wf(),
        ensures
            final(self).wf(),
            final(self).old_names() == old(self).names(),
            final(self).names() == (match old(self).dict() {
                Some(d) => kept_names(spellcheck_names(objects@.map_values(|e: ObjectEntry| e@)), old(self).names(), accepted_words(d)),
                None => Set::<Seq<char>>::empty(),
            }),
            final(self).dict() == old(self).dict(),
            final(self).fresh() == old(self).fresh(),
            final(self).ignored() == old(self).ignored(),
            final(self).added() == old(self).added(),
            final(self).updated() == old(self).updated(),
    {
        let ghost es = objects@.map_values(|e: ObjectEntry| e@);
        let mut previous: Vec<String> = Vec::new();
        std::mem::swap(&mut previous, &mut self.characters_and_places);
        self.old_characters_and_places = previous;
        let ghost olds = self.old_names();
        proof {
            assert(word_set(self.characters_and_places@) =~= Set::<Seq<char>>::empty());
            assert(es.take(0) =~= Seq::<crate::reference::EntryV>::empty());
            assert(kept_names(Seq::<Seq<char>>::empty(), olds, Set::<Seq<char>>::empty()) == Set::<Seq<char>>::empty());
        }
        let mut i: usize = 0;
        while i < objects.len()
            invariant
                i <= objects.len(),
                es == objects@.map_values(|e: ObjectEntry| e@),
                self.wf(),
                olds == self.old_names(),
                olds == old(self).names(),
                self.dict() == old(self).dict(),
                self.fresh() == old(self).fresh(),
                self.ignored() == old(self).ignored(),
                self.added() == old(self).added(),
                self.updated() == old(self).updated(),
                self.names() == (match self.dict() {
                Some(d) => kept_names(spellcheck_names(es.take(i as int)), olds, accepted_words(d)),
                None => Set::<Seq<char>>::empty(),
                }),
            decreases objects.len() - i,
        {
            let additions = objects[i].provide_spellcheck_additions();
            let ghost pre = spellcheck_names(es.take(i as int));
            proof {
                assert(es.take(i + 1).drop_last() =~= es.take(i as int));
                assert(es.take(i + 1).last() == objects@[i as int]@);
                let one = seq![objects@[i as int]@];
                assert(one.drop_last() =~= Seq::<crate::reference::EntryV>::empty());
                assert(one.last() == objects@[i as int]@);
                assert(spellcheck_names(one.drop_last()) == Seq::<Seq<char>>::empty());
                let e = objects@[i as int]@;
                if (e.file_type.identifier == character_v().identifier || e.file_type.identifier == place_v().identifier)
                    && e.name.len() > 0 {
                    assert(spellcheck_names(one) =~= seq![e.name]);
                    assert(spellcheck_names(es.take(i + 1)) =~= pre + spellcheck_names(one));
                } else {
                    assert(spellcheck_names(one) =~= Seq::<Seq<char>>::empty());
                    assert(spellcheck_names(es.take(i + 1)) =~= pre + spellcheck_names(one));
                }
                assert(pre + word_seq(additions@).take(0) =~= pre);
            }
            let mut j: usize = 0;
            while j < additions.len()
                invariant
                    j <= additions.len(),
                    self.wf(),
                    olds == self.old_names(),
                    self.dict() == old(self).dict(),
                    self.fresh() == old(self).fresh(),
                    self.ignored() == old(self).ignored(),
                    self.added() == old(self).added(),
                    self.updated() == old(self).updated(),
                    self.names() == (match self.dict() {
                    Some(d) => kept_names(pre + word_seq(additions@).take(j as int), olds, accepted_words(d)),
                    None => Set::<Seq<char>>::empty(),
                    }),
                decreases additions.len() - j,
            {
                self.add_file_object_name(additions[j].as_str());
                proof {
                    let a = pre + word_seq(additions@).take(j as int);
                    assert((pre + word_seq(additions@).take(j + 1)) =~= a.push(additions@[j as int]@));
                    assert(a.push(additions@[j as int]@).drop_last() =~= a);
                }
                j = j + 1;
            }
            proof {
                assert(word_seq(additions@).take(additions.len() as int) =~= word_seq(additions@));
            }
            i = i + 1;
        }
        proof {
            assert(es.take(objects.len() as int) =~= es);
        }
    }

    /// `next` is this state after [`DictionaryState::resync_file_names`], through the
    /// dictionaries `ds` (loading afresh) and the steps `ss` (syncing the names). Where a name
    /// noted as added is no longer a name, the work starts from a copy of the fresh dictionary
    /// with each ignored word ignored again, and no name noted; else from the dictionary as it
    /// is, with its noted names. Then each name, in order, is synced ([`name_synced`]).
    pub open spec fn resyncs(self, next: Self, ds: Seq<Dictionary>, ss: Seq<(Dictionary, Set<Seq<char>>)>) -> bool {
        let stale = !self.added().subset_of(self.names());
        let start = if stale { self.fresh() } else { self.dict() };
        let base = if stale { Set::<Seq<char>>::empty() } else { self.added() };
        match start {
            None => next.dict() is None && next.added() == base,
            Some(d) => {
                &&& (stale ==> re_ignores_all(ds, self.ignored_list()) && same_words(ds[0], d)
                    && ss[0] == (ds.last(), base))
                &&& (!stale ==> ss[0] == (d, base))
                &&& names_synced_all(ss, self.names_list())
                &&& next.dict() == Some(ss.last().0)
                &&& next.added() == ss.last().1
            },
        }
    }

    /// Brings the dictionary in line with the names: where a name was added to it that is no
    /// longer a name, the dictionary is loaded afresh with the ignored words added back, and
    /// the added names forgotten; then each name that the dictionary does not accept is
    /// added to it, and noted as added when it could be. Whatever the dictionary answers,
    /// afterwards every name noted as added is a current name.
    pub fn resync_file_names(&mut self)
        requires
            old(self).wf(),
        ensures
            final(self).wf(),
            final(self).added().subset_of(old(self).names()),
            old(self).added().subset_of(old(self).names()) ==> {
                &&& old(self).added().subset_of(final(self).added())
                &&& final(self).dict() is Some == old(self).dict() is Some
                &&& final(self).dict() is None ==> final(self).dict() == old(self).dict() && final(self).added() == old(self).added()
            },
            !old(self).added().subset_of(old(self).names()) ==> {
                &&& final(self).dict() is Some == old(self).fresh() is Some
                &&& final(self).dict() is None ==> final(self).added() == Set::<Seq<char>>::empty()
            },
            final(self).fresh() == old(self).fresh(),
            final(self).names() == old(self).names(),
            final(self).old_names() == old(self).old_names(),
            final(self).ignored() == old(self).ignored(),
            final(self).updated() == old(self).updated(),
            exists|ds: Seq<Dictionary>, ss: Seq<(Dictionary, Set<Seq<char>>)>| #[trigger] old(self).resyncs(*final(self), ds, ss),
    {
        let ghost names = self.names();
        let ghost mut ds: Seq<Dictionary> = Seq::empty();
        let ghost mut ss: Seq<(Dictionary, Set<Seq<char>>)> = Seq::empty();
        let mut stale = false;
        let mut i: usize = 0;
        while i < self.added_file_object_names.len()
            invariant
                i <= self.added_file_object_names.len(),
                names == word_set(self.characters_and_places@),
                self.dictionary == old(self).dictionary,
                self.added_file_object_names == old(self).added_file_object_names,
                self.fresh_dictionary == old(self).fresh_dictionary,
                self.ignored_words == old(self).ignored_words,
                self.characters_and_places == old(self).characters_and_places,
                self.old_characters_and_places == old(self).old_characters_and_places,
                self.ignore_list_updated == old(self).ignore_list_updated,
                old(self).wf(),
                stale == exists|j: int| 0 <= j < i && !names.contains(#[trigger] self.added_file_object_names@[j]@),
            decreases self.added_file_object_names.len() - i,
        {
            if !contains_word(&self.characters_and_places, self.added_file_object_names[i].as_str()) {
                stale = true;
            }
            i = i + 1;
        }
        proof {
            if stale {
                let j = choose|j: int| 0 <= j < i && !names.contains(#[trigger] self.added_file_object_names@[j]@);
                assert(word_seq(self.added_file_object_names@)[j] == self.added_file_object_names@[j]@);
                assert(self.added().contains(self.added_file_object_names@[j]@));
            } else {
                assert forall|w: Seq<char>| self.added().contains(w) implies names.contains(w) by {
                    let k = choose|k: int| 0 <= k < word_seq(self.added_file_object_names@).len() && word_seq(self.added_file_object_names@)[k] == w;
                    assert(self.added_file_object_names@[k]@ == w);
                }
            }
        }
        let ghost base = if stale { Set::<Seq<char>>::empty() } else { self.added() };
        if stale {
            let fresh = match &self.fresh_dictionary {
                Some(d) => Some(clone_dictionary(d)),
                None => None,
            };
            self.dictionary = match fresh {
                Some(mut dictionary) => {
                    proof {
                        ds = seq![dictionary];
                    }
                    let ghost words = old(self).ignored_list();
                    let mut k: usize = 0;
                    while k < self.ignored_words.len()
                        invariant
                            k <= self.ignored_words.len(),
                            self.fresh_dictionary == old(self).fresh_dictionary,
                            self.ignored_words == old(self).ignored_words,
                            self.characters_and_places == old(self).characters_and_places,
                            self.old_characters_and_places == old(self).old_characters_and_places,
                            self.ignore_list_updated == old(self).ignore_list_updated,
                            old(self).wf(),
                            words == word_seq(self.ignored_words@),
                            ds.len() == k + 1,
                            ds.last() == dictionary,
                            forall|i: int| 0 <= i < k ==> re_ignores(ds[i], ds[i + 1], #[trigger] words[i]),
                            same_words(ds[0], old(self).fresh()->0),
                        decreases self.ignored_words.len() - k,
                    {
                        let ghost before = dictionary;
                        let w = self.ignored_words[k].as_str();
                        proof {
                            assert(words[k as int] == w@);
                        }
                        if !check_word(&dictionary, w) {
                            add_word(&mut dictionary, w);
                        }
                        proof {
                            assert(re_ignores(before, dictionary, words[k as int]));
                            ds = ds.push(dictionary);
                            assert forall|i: int| 0 <= i < k + 1 implies re_ignores(ds[i], ds[i + 1], #[trigger] words[i]) by {
                                if i < k {
                                    assert(ds[i] == ds.drop_last()[i] && ds[i + 1] == ds.drop_last()[i + 1]);
                                }
                            }
                        }
                        k = k + 1;
                    }
                    proof {
                        assert(re_ignores_all(ds, words));
                    }
                    Some(dictionary)
                },
                None => None,
            };
            self.added_file_object_names = Vec::new();
            assert(self.added() =~= Set::<Seq<char>>::empty());
        }
        proof {
            assert(stale == !old(self).added().subset_of(old(self).names()));
            assert(stale ==> (self.dictionary is Some == old(self).fresh() is Some));
            assert(stale ==> (self.dictionary matches Some(d) ==> d == ds.last()
                && re_ignores_all(ds, old(self).ignored_list()) && same_words(ds[0], old(self).fresh()->0)));
            assert(!stale ==> self.dictionary == old(self).dict());
            assert(self.added() == base);
        }
        let mut slot: Option<Dictionary> = None;
        std::mem::swap(&mut slot, &mut self.dictionary);
        match slot {
            Some(mut dictionary) => {
                proof {
                    ss = seq![(dictionary, self.added())];
                }
                let ghost nl = self.names_list();
                let mut k: usize = 0;
                while k < self.characters_and_places.len()
                    invariant
                        stale == !old(self).added().subset_of(old(self).names()),
                        stale ==> old(self).fresh() is Some && re_ignores_all(ds, old(self).ignored_list())
                            && same_words(ds[0], old(self).fresh()->0) && ss[0] == (ds.last(), Set::<Seq<char>>::empty()),
                        !stale ==> old(self).dict() is Some && ss[0] == (old(self).dict()->0, old(self).added()),
                        nl == old(self).names_list(),
                        nl == word_seq(self.characters_and_places@),
                        ss.len() == k + 1,
                        ss.last() == (dictionary, word_set(self.added_file_object_names@)),
                        forall|i: int| 0 <= i < k ==> name_synced(ss[i], ss[i + 1], #[trigger] nl[i]),
                        k <= self.characters_and_places.len(),
                        names == word_set(self.characters_and_places@),
                        self.dictionary is None,
                        self.fresh_dictionary == old(self).fresh_dictionary,
                        self.ignored_words == old(self).ignored_words,
                        self.characters_and_places == old(self).characters_and_places,
                        self.old_characters_and_places == old(self).old_characters_and_places,
                        self.ignore_list_updated == old(self).ignore_list_updated,
                        old(self).wf(),
                        word_seq(self.added_file_object_names@).no_duplicates(),
                        base.subset_of(word_set(self.added_file_object_names@)),
                        word_set(self.added_file_object_names@).subset_of(base.union(names)),
                    decreases self.characters_and_places.len() - k,
                {
                    let w = self.characters_and_places[k].as_str();
                    proof {
                        assert(word_seq(self.characters_and_places@)[k as int] == w@);
                    }
                    let ghost before = (dictionary, word_set(self.added_file_object_names@));
                    if !contains_word(&self.added_file_object_names, w) && !check_word(&dictionary, w) {
                        if add_word(&mut dictionary, w) {
                            insert_word(&mut self.added_file_object_names, w);
                        }
                    }
                    proof {
                        let after = (dictionary, word_set(self.added_file_object_names@));
                        assert(name_synced(before, after, nl[k as int]));
                        ss = ss.push(after);
                        assert forall|i: int| 0 <= i < k + 1 implies name_synced(ss[i], ss[i + 1], #[trigger] nl[i]) by {
                            if i < k {
                                assert(ss[i] == ss.drop_last()[i] && ss[i + 1] == ss.drop_last()[i + 1]);
                            }
                        }
                    }
                    k = k + 1;
                }
                proof {
                    assert(names_synced_all(ss, nl));
                }
                self.dictionary = Some(dictionary);
                proof {
                    assert(old(self).resyncs(*self, ds, ss));
                }
            },
            None => {
                proof {
                    assert(old(self).resyncs(*self, ds, ss));
                }
            },
        }
    }

    /// The state of a project's dictionary: the dictionary that the contents `aff` and `dic`
    /// of its two files describe (none where they cannot be read), with each of
    /// `ignored_words` ignored in turn (see [`DictionaryState::add_ignored`]).
    pub fn load(aff: &str, dic: &str, ignored_words: &Vec<String>) -> (r: Self)
        ensures
            r.wf(),
            r.dict() is Some == parsed_dictionary(aff@, dic@) is Some,
            r.fresh() is Some == parsed_dictionary(aff@, dic@) is Some,
            r.fresh() matches Some(f) ==> parsed_dictionary(aff@, dic@) == Some(accepted_words(f)),
            r.ignored().subset_of(word_set(ignored_words@)),
            r.dict() is None ==> r.ignored() == Set::<Seq<char>>::empty(),
            r.updated() == (r.ignored() != Set::<Seq<char>>::empty()),
            r.names() == Set::<Seq<char>>::empty(),
            r.old_names() == Set::<Seq<char>>::empty(),
            r.added() == Set::<Seq<char>>::empty(),
            exists|states: Seq<DictionaryState>, rs: Seq<bool>|
                #[trigger] ignores_in_turn(states, word_seq(ignored_words@), rs) && states.last() == r
                && fresh_state(states[0], parsed_dictionary(aff@, dic@)),
    {
        let parsed = parse_dictionary(aff, dic);
        let ghost pd = parsed_dictionary(aff@, dic@);
        let mut state = DictionaryState::new(parsed);
        let ghost words = word_seq(ignored_words@);
        let ghost mut states: Seq<DictionaryState> = seq![state];
        let ghost mut rs: Seq<bool> = Seq::empty();
        let mut i: usize = 0;
        while i < ignored_words.len()
            invariant
                words == word_seq(ignored_words@),
                states.len() == i + 1,
                rs.len() == i,
                states.last() == state,
                fresh_state(states[0], pd),
                forall|j: int| 0 <= j < i ==> states[j].ignores(states[j + 1], words[j], #[trigger] rs[j]),
                i <= ignored_words.len(),
                pd == parsed_dictionary(aff@, dic@),
                state.dict() is Some == pd is Some,
                state.fresh() is Some == pd is Some,
                state.fresh() matches Some(f) ==> pd == Some(accepted_words(f)),
                state.wf(),
                state.ignored().subset_of(word_set(ignored_words@.take(i as int))),
                state.dict() is None ==> state.ignored() == Set::<Seq<char>>::empty(),
                state.updated() == (state.ignored() != Set::<Seq<char>>::empty()),
                state.names() == Set::<Seq<char>>::empty(),
                state.old_names() == Set::<Seq<char>>::empty(),
                state.added() == Set::<Seq<char>>::empty(),
            decreases ignored_words.len() - i,
        {
            let ghost before = state.ignored();
            let ghost before_state = state;
            let added = state.add_ignored(ignored_words[i].as_str());
            proof {
                assert(words[i as int] == ignored_words@[i as int]@);
                assert(before_state.ignores(state, words[i as int], added));
                let old_states = states;
                let old_rs = rs;
                states = states.push(state);
                rs = rs.push(added);
                assert forall|j: int| 0 <= j < i + 1 implies states[j].ignores(states[j + 1], words[j], #[trigger] rs[j]) by {
                    if j < i {
                        assert(states[j] == old_states[j] && states[j + 1] == old_states[j + 1] && rs[j] == old_rs[j]);
                    }
                }
                let w = ignored_words@[i as int]@;
                assert(word_seq(ignored_words@.take(i + 1)) =~= word_seq(ignored_words@.take(i as int)).push(w));
                word_seq(ignored_words@.take(i as int)).lemma_push_to_set_commute(w);
                if added {
                    assert(state.ignored().contains(w));
                }
            }
            i = i + 1;
        }
        assert(ignored_words@.take(i as int) =~= ignored_words@);
        assert(ignores_in_turn(states, words, rs));
        state
    }

    /// The ignored words.
    pub fn get_ignore_list(&self) -> (r: Vec<String>)
        ensures
            word_seq(r@) == self.ignored_list(),
            word_set(r@) == self.ignored(),
    {
        let out = clone_path(&self.ignored_words);
        assert(word_seq(out@) =~= comps(out@));
        assert(word_seq(self.ignored_words@) =~= comps(self.ignored_words@));
        out
    }
}

} // verus!
