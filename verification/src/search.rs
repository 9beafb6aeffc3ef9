//! Find in scrollback: the query, the matches and the step from one to the
//! next.

use crate::text::chars_of;
use crate::text_field::TextField;
use vstd::prelude::*;

verus! {

/// A run of matching cells, both ends included, on one line.
#[derive(Clone, Copy, PartialEq, Eq, Debug, Structural)]
pub struct Match {
    pub line: isize,
    pub start_col: usize,
    pub end_col: usize,
}

/// The find overlay: whether it is open, its query, the matches in reading
/// order and the one that is emphasised.
#[derive(Debug)]
pub struct Search {
    pub open: bool,
    pub input: TextField,
    pub matches: Vec<Match>,
    pub current: usize,
}

/// What a [`Search`] holds.
#[verifier::ext_equal]
pub struct SearchView {
    pub open: bool,
    pub query: Seq<char>,
    pub matches: Seq<Match>,
    pub current: int,
}

impl View for Search {
    type V = SearchView;

    open spec fn view(&self) -> SearchView {
        SearchView {
            open: self.open,
            query: self.input.value@,
            matches: self.matches@,
            current: self.current as int,
        }
    }
}

/// A search without query and matches.
pub open spec fn blank_search(open: bool) -> SearchView {
    SearchView { open, query: Seq::empty(), matches: Seq::empty(), current: 0 }
}

/// The current match is one of the matches; without matches it is the first.
pub open spec fn search_wf(s: SearchView) -> bool {
    if s.matches.len() == 0 {
        s.current == 0
    } else {
        0 <= s.current < s.matches.len()
    }
}

/// The search one match further, after the last one back at the first.
pub open spec fn stepped_next(s: SearchView) -> SearchView {
    if s.matches.len() == 0 {
        s
    } else {
        SearchView { current: (s.current + 1) % (s.matches.len() as int), ..s }
    }
}

/// The search one match back, before the first one at the last.
pub open spec fn stepped_prev(s: SearchView) -> SearchView {
    if s.matches.len() == 0 {
        s
    } else {
        SearchView {
            current: (s.current + s.matches.len() - 1) % (s.matches.len() as int),
            ..s
        }
    }
}

impl Default for Search {
    fn default() -> (search: Self)
        ensures
            search@ == blank_search(false),
    {
        let search = Search {
            open: false,
            input: TextField::new(),
            matches: Vec::new(),
            current: 0,
        };
        assert(search@ =~= blank_search(false));
        search
    }
}

impl Search {
    /// The search's invariant.
    pub open spec fn wf(&self) -> bool {
        search_wf(self@)
    }

    /// Opens the overlay with an empty query.
    pub fn open(&mut self)
        ensures
            final(self).wf(),
            final(self)@ == blank_search(true),
    {
        self.open = true;
        self.input.clear();
        self.matches.clear();
        self.current = 0;
        assert(self@ =~= blank_search(true));
    }

    /// Closes the overlay and forgets its query and matches.
    pub fn close(&mut self)
        ensures
            final(self).wf(),
            final(self)@ == blank_search(false),
    {
        self.open = false;
        self.input.clear();
        self.matches.clear();
        self.current = 0;
        assert(self@ =~= blank_search(false));
    }

    /// Closes an open overlay and opens a closed one.
    pub fn toggle(&mut self)
        ensures
            final(self).wf(),
            final(self)@ == blank_search(!old(self)@.open),
    {
        if self.open {
            self.close();
        } else {
            self.open();
        }
    }

    /// Appends a typed character to the query.
    pub fn type_char(&mut self, c: char)
        ensures
            final(self)@ == (SearchView { query: old(self)@.query.push(c), ..old(self)@ }),
    {
        self.input.insert(c);
    }

    /// Deletes the last character of the query.
    pub fn backspace(&mut self)
        ensures
            final(self)@ == (SearchView {
                query: if old(self)@.query.len() == 0 {
                    old(self)@.query
                } else {
                    old(self)@.query.drop_last()
                },
                ..old(self)@
            }),
    {
        self.input.backspace();
    }

    /// Replaces the matches. The current match keeps its place where it still
    /// has one, and goes back to the first otherwise.
    pub fn set_matches(&mut self, matches: Vec<Match>)
        ensures
            final(self).wf(),
            final(self)@ == (SearchView {
                matches: matches@,
                current: if old(self)@.current < matches@.len() {
                    old(self)@.current
                } else {
                    0
                },
                ..old(self)@
            }),
    {
        self.matches = matches;
        if self.current >= self.matches.len() {
            self.current = 0;
        }
    }

    /// Steps to the next match, around the end. Does nothing without matches.
    pub fn next(&mut self)
        requires
            old(self)@.matches.len() == 0 || old(self).current < usize::MAX,
        ensures
            final(self)@ == stepped_next(old(self)@),
            old(self).wf() || old(self)@.matches.len() > 0 ==> final(self).wf(),
    {
        let n: usize = self.matches.len();
        if n > 0 {
            self.current = (self.current + 1) % n;
        }
    }

    /// Steps to the previous match, around the start. Does nothing without
    /// matches.
    pub fn prev(&mut self)
        requires
            old(self)@.matches.len() == 0 || old(self).wf() || old(self).current + old(
                self,
            )@.matches.len() - 1 <= usize::MAX,
        ensures
            final(self)@ == stepped_prev(old(self)@),
            old(self).wf() || old(self)@.matches.len() > 0 ==> final(self).wf(),
    {
        let n: usize = self.matches.len();
        if n == 0 {
            return;
        }
        proof {
            let c = self.current as int;
            if c == 0 {
                vstd::arithmetic::div_mod::lemma_small_mod((n - 1) as nat, n as nat);
            } else if c < n {
                vstd::arithmetic::div_mod::lemma_small_mod((c - 1) as nat, n as nat);
                vstd::arithmetic::div_mod::lemma_mod_add_multiples_vanish(c - 1, n as int);
            }
        }
        if self.current == 0 {
            self.current = n - 1;
        } else if self.current < n {
            self.current = self.current - 1;
        } else {
            self.current = (self.current + (n - 1)) % n;
        }
    }

    /// The current match, if there is one.
    pub fn current_match(&self) -> (found: Option<Match>)
        ensures
            found == if self@.current < self@.matches.len() {
                Some(self@.matches[self@.current])
            } else {
                None
            },
    {
        if self.current < self.matches.len() {
            Some(self.matches[self.current])
        } else {
            None
        }
    }
}

/// Stepping forward and back again, or back and forward, stays on the match.
pub proof fn steps_undo_each_other(s: SearchView)
    requires
        search_wf(s),
    ensures
        stepped_prev(stepped_next(s)) == s,
        stepped_next(stepped_prev(s)) == s,
{
    let n = s.matches.len() as int;
    if n > 0 {
        let c = s.current;
        if c + 1 < n {
            vstd::arithmetic::div_mod::lemma_small_mod((c + 1) as nat, n as nat);
            vstd::arithmetic::div_mod::lemma_mod_add_multiples_vanish(c, n);
            vstd::arithmetic::div_mod::lemma_small_mod(c as nat, n as nat);
        } else {
            vstd::arithmetic::div_mod::lemma_mod_self_0(n);
            vstd::arithmetic::div_mod::lemma_small_mod((n - 1) as nat, n as nat);
        }
        if c == 0 {
            vstd::arithmetic::div_mod::lemma_small_mod((n - 1) as nat, n as nat);
            vstd::arithmetic::div_mod::lemma_mod_self_0(n);
        } else {
            vstd::arithmetic::div_mod::lemma_mod_add_multiples_vanish(c - 1, n);
            vstd::arithmetic::div_mod::lemma_small_mod((c - 1) as nat, n as nat);
            vstd::arithmetic::div_mod::lemma_small_mod(c as nat, n as nat);
        }
    }
}

/// Whether a character is an uppercase one.
pub uninterp spec fn uppercase(c: char) -> bool;

/// The first character of a character's lowercase form.
pub uninterp spec fn first_lowercase(c: char) -> char;

/// `char::is_uppercase`, named by [`uppercase`]. Of the ASCII characters
/// exactly the letters from `A` to `Z` are uppercase.
#[verifier::external_body]
fn is_uppercase(c: char) -> (b: bool)
    ensures
        b == uppercase(c),
        c as u32 <= 127 ==> b == ('A' <= c <= 'Z'),
{
    c.is_uppercase()
}

/// The lowercase counterpart of an ASCII letter; other characters stay.
pub open spec fn ascii_lowercase(c: char) -> char {
    if 'A' <= c && c <= 'Z' {
        (c as int + 32) as char
    } else {
        c
    }
}

/// The first character of `char::to_lowercase`, named by [`first_lowercase`].
/// Of the ASCII characters exactly the letters from `A` to `Z` change, each
/// to its counterpart 32 places on.
#[verifier::external_body]
fn fold_char(c: char) -> (out: char)
    ensures
        out == first_lowercase(c),
        c as u32 <= 127 ==> out == ascii_lowercase(c),
{
    c.to_lowercase().next().unwrap_or(c)
}

/// Whether a text is all ASCII.
pub open spec fn ascii(text: Seq<char>) -> bool {
    forall|i: int| 0 <= i < text.len() ==> (#[trigger] text[i]) as u32 <= 127
}

/// A text with its ASCII letters in lowercase.
pub open spec fn ascii_folded(text: Seq<char>) -> Seq<char> {
    Seq::new(text.len(), |i: int| ascii_lowercase(text[i]))
}

/// Smart case: a query is matched by case exactly when it holds an uppercase
/// character.
pub fn smart_case(query: &str) -> (sensitive: bool)
    ensures
        sensitive == exists|i: int| 0 <= i < query@.len() && uppercase(#[trigger] query@[i]),
        ascii(query@) ==> sensitive == exists|i: int|
            0 <= i < query@.len() && 'A' <= #[trigger] query@[i] <= 'Z',
{
    let chars: Vec<char> = chars_of(query);
    any_uppercase(&chars)
}

/// Whether any of the characters is an uppercase one.
fn any_uppercase(chars: &Vec<char>) -> (found: bool)
    ensures
        found == exists|i: int| 0 <= i < chars@.len() && uppercase(#[trigger] chars@[i]),
        ascii(chars@) ==> found == exists|i: int|
            0 <= i < chars@.len() && 'A' <= #[trigger] chars@[i] <= 'Z',
{
    let mut i: usize = 0;
    while i < chars.len()
        invariant
            i <= chars@.len(),
            forall|k: int| 0 <= k < i ==> !uppercase(#[trigger] chars@[k]),
            ascii(chars@) ==> forall|k: int|
                0 <= k < i ==> !('A' <= #[trigger] chars@[k] <= 'Z'),
        decreases chars@.len() - i,
    {
        if is_uppercase(chars[i]) {
            assert(uppercase(chars@[i as int]));
            return true;
        }
        i = i + 1;
    }
    false
}

/// The characters that a text is compared by.
pub open spec fn folded(text: Seq<char>, case_sensitive: bool) -> Seq<char> {
    if case_sensitive {
        text
    } else {
        Seq::new(text.len(), |i: int| first_lowercase(text[i]))
    }
}

/// Whether `need` stands at place `i` of `hay`.
pub open spec fn occurs_at(hay: Seq<char>, need: Seq<char>, i: int) -> bool {
    0 <= i && i + need.len() <= hay.len() && hay.subrange(i, i + need.len()) == need
}

/// The occurrences from place `i` on, from left to right: each is the first
/// one past the one before.
pub open spec fn hits_from(hay: Seq<char>, need: Seq<char>, i: int) -> Seq<(usize, usize)>
    decreases hay.len() - i,
{
    if need.len() == 0 || i < 0 || i + need.len() > hay.len() {
        Seq::empty()
    } else if occurs_at(hay, need, i) {
        seq![(i as usize, (i + need.len() - 1) as usize)] + hits_from(hay, need, i + need.len())
    } else {
        hits_from(hay, need, i + 1)
    }
}

/// The characters of a text, folded for comparison.
fn fold(text: &str, case_sensitive: bool) -> (out: Vec<char>)
    ensures
        out@ == folded(text@, case_sensitive),
        ascii(text@) && !case_sensitive ==> out@ == ascii_folded(text@),
{
    let chars: Vec<char> = chars_of(text);
    if case_sensitive {
        return chars;
    }
    let mut out: Vec<char> = Vec::new();
    let mut i: usize = 0;
    while i < chars.len()
        invariant
            i <= chars@.len(),
            out@ == folded(chars@, false).subrange(0, i as int),
            ascii(chars@) ==> out@ == ascii_folded(chars@).subrange(0, i as int),
        decreases chars@.len() - i,
    {
        out.push(fold_char(chars[i]));
        i = i + 1;
        assert(out@ =~= folded(chars@, false).subrange(0, i as int));
        assert(ascii(chars@) ==> out@ =~= ascii_folded(chars@).subrange(0, i as int));
    }
    assert(out@ =~= folded(chars@, false));
    assert(ascii(chars@) ==> out@ =~= ascii_folded(chars@));
    out
}

/// Whether `need` stands at place `i` of `hay`.
fn stands_at(hay: &Vec<char>, need: &Vec<char>, i: usize) -> (b: bool)
    requires
        i + need@.len() <= hay@.len(),
    ensures
        b == occurs_at(hay@, need@, i as int),
{
    let end: usize = hay.len();
    let mut k: usize = 0;
    while k < need.len()
        invariant
            end == hay@.len(),
            i + need@.len() <= end,
            k <= need@.len(),
            forall|j: int| 0 <= j < k ==> hay@[i + j] == #[trigger] need@[j],
        decreases need@.len() - k,
    {
        let x: char = hay[i + k];
        let y: char = need[k];
        if x != y {
            assert(hay@.subrange(i as int, i + need@.len())[k as int] != need@[k as int]);
            return false;
        }
        k = k + 1;
    }
    assert(hay@.subrange(i as int, i + need@.len()) =~= need@);
    true
}

/// All occurrences of `need` in `hay` that do not overlap, from left to right,
/// as places of the first and last character.
pub fn match_chars(hay: &Vec<char>, need: &Vec<char>) -> (hits: Vec<(usize, usize)>)
    ensures
        hits@ == hits_from(hay@, need@, 0),
{
    let mut hits: Vec<(usize, usize)> = Vec::new();
    let n: usize = need.len();
    if n == 0 || hay.len() < n {
        return hits;
    }
    let mut i: usize = 0;
    assert(hits@ + hits_from(hay@, need@, 0) =~= hits_from(hay@, need@, 0));
    while n <= hay.len() - i
        invariant
            n == need@.len(),
            n > 0,
            i <= hay@.len(),
            hits@ + hits_from(hay@, need@, i as int) == hits_from(hay@, need@, 0),
        decreases hay@.len() - i,
    {
        let ghost before = hits@;
        if stands_at(hay, need, i) {
            let ghost rest = hits_from(hay@, need@, i + n);
            hits.push((i, i + (n - 1)));
            assert(hits@ + rest =~= before + (seq![(i, (i + (n - 1)) as usize)] + rest));
            i = i + n;
        } else {
            i = i + 1;
        }
    }
    assert(hits@ =~= hits_from(hay@, need@, 0));
    hits
}

/// All occurrences of `query` in `line` that do not overlap, as columns of the
/// first and last character. An empty query occurs nowhere. Without regard to
/// case, each character stands for the first one of its lowercase form, so
/// that columns stay in step.
pub fn match_line(line: &str, query: &str, case_sensitive: bool) -> (hits: Vec<(usize, usize)>)
    ensures
        hits@ == hits_from(folded(line@, case_sensitive), folded(query@, case_sensitive), 0),
        !case_sensitive && ascii(line@) && ascii(query@) ==> hits@ == hits_from(
            ascii_folded(line@),
            ascii_folded(query@),
            0,
        ),
{
    let hay: Vec<char> = fold(line, case_sensitive);
    let need: Vec<char> = fold(query, case_sensitive);
    match_chars(&hay, &need)
}

/// Every hit is an occurrence, hits come in order, and they do not overlap.
pub proof fn hits_are_ordered_occurrences(hay: Seq<char>, need: Seq<char>, i: int)
    requires
        0 <= i,
        hay.len() <= usize::MAX,
    ensures
        ({
            let hits = hits_from(hay, need, i);
            &&& forall|k: int|
                0 <= k < hits.len() ==> i <= (#[trigger] hits[k]).0 && occurs_at(
                    hay,
                    need,
                    hits[k].0 as int,
                ) && hits[k].1 == hits[k].0 + need.len() - 1
            &&& forall|j: int, k: int|
                0 <= j < k < hits.len() ==> (#[trigger] hits[j]).1 < (#[trigger] hits[k]).0
        }),
    decreases hay.len() - i,
{
    if need.len() == 0 || i + need.len() > hay.len() {
    } else if occurs_at(hay, need, i) {
        hits_are_ordered_occurrences(hay, need, i + need.len());
        let hits = hits_from(hay, need, i);
        let rest = hits_from(hay, need, i + need.len());
        assert forall|k: int| 0 <= k < hits.len() implies i <= (#[trigger] hits[k]).0 && occurs_at(
            hay,
            need,
            hits[k].0 as int,
        ) && hits[k].1 == hits[k].0 + need.len() - 1 by {
            if k > 0 {
                assert(hits[k] == rest[k - 1]);
            }
        }
        assert forall|j: int, k: int| 0 <= j < k < hits.len() implies (#[trigger] hits[j]).1 < (
        #[trigger] hits[k]).0 by {
            assert(hits[k] == rest[k - 1]);
            if j > 0 {
                assert(hits[j] == rest[j - 1]);
            }
        }
    } else {
        hits_are_ordered_occurrences(hay, need, i + 1);
        let hits = hits_from(hay, need, i);
        let rest = hits_from(hay, need, i + 1);
        assert(hits == rest);
        assert forall|k: int| 0 <= k < hits.len() implies i <= (#[trigger] hits[k]).0 && occurs_at(
            hay,
            need,
            hits[k].0 as int,
        ) && hits[k].1 == hits[k].0 + need.len() - 1 by {
            assert(rest[k].0 >= i + 1);
        }
    }
}

/// No occurrence is missed: each one starts inside a hit.
pub proof fn every_occurrence_is_covered(hay: Seq<char>, need: Seq<char>, i: int, at: int) -> (k:
    int)
    requires
        0 <= i <= at,
        need.len() > 0,
        hay.len() <= usize::MAX,
        occurs_at(hay, need, at),
    ensures
        ({
            let hits = hits_from(hay, need, i);
            0 <= k < hits.len() && hits[k].0 <= at <= hits[k].1
        }),
    decreases hay.len() - i,
{
    if occurs_at(hay, need, i) {
        if at < i + need.len() {
            0
        } else {
            let k = every_occurrence_is_covered(hay, need, i + need.len(), at);
            assert(hits_from(hay, need, i)[k + 1] == hits_from(hay, need, i + need.len())[k]);
            k + 1
        }
    } else {
        every_occurrence_is_covered(hay, need, i + 1, at)
    }
}

/// A query that is longer than the line occurs nowhere.
pub proof fn long_query_occurs_nowhere(hay: Seq<char>, need: Seq<char>)
    requires
        need.len() > hay.len(),
    ensures
        hits_from(hay, need, 0).len() == 0,
{
}

/// Hits are places where the query stands, in order and apart from each other; and
/// wherever it stands, it starts inside a hit. So from left to right each hit is
/// the first one past the one before.
pub proof fn hits_are_the_places_of_the_query(
    hay: &Vec<char>,
    need: &Vec<char>,
    hits: Vec<(usize, usize)>,
    j: int,
    k: int,
    at: int,
)
    requires
        call_ensures(match_chars, (hay, need), hits),
        hay@.len() <= usize::MAX,
    ensures
        need@.len() == 0 ==> hits@.len() == 0,
        0 <= k < hits@.len() ==> hits@[k].0 <= hits@[k].1 < hay@.len() && hay@.subrange(
            hits@[k].0 as int,
            hits@[k].1 + 1,
        ) == need@,
        0 <= j < k < hits@.len() ==> hits@[j].1 < hits@[k].0,
        need@.len() > 0 && 0 <= at && at + need@.len() <= hay@.len() && hay@.subrange(
            at,
            at + need@.len(),
        ) == need@ ==> exists|i: int|
            0 <= i < hits@.len() && (#[trigger] hits@[i]).0 <= at <= hits@[i].1,
{
    hits_are_ordered_occurrences(hay@, need@, 0);
    if need@.len() > 0 && 0 <= at && at + need@.len() <= hay@.len() && hay@.subrange(
        at,
        at + need@.len(),
    ) == need@ {
        let i = every_occurrence_is_covered(hay@, need@, 0, at);
        assert(hits@[i].0 <= at <= hits@[i].1);
    }
    if 0 <= k < hits@.len() {
        assert(occurs_at(hay@, need@, hits@[k].0 as int));
        if need@.len() == 0 {
            assert(hits_from(hay@, need@, 0).len() == 0);
        }
    }
}

/// With regard to case a line is searched as it is. Without, a line and a query of
/// ASCII characters are searched as if all their letters were small.
pub proof fn case_is_regarded_or_not(
    line: &str,
    query: &str,
    hay: &Vec<char>,
    need: &Vec<char>,
    case_sensitive: bool,
    hits: Vec<(usize, usize)>,
    plain: Vec<(usize, usize)>,
)
    requires
        call_ensures(match_line, (line, query, case_sensitive), hits),
        call_ensures(match_chars, (hay, need), plain),
        case_sensitive ==> hay@ == line@ && need@ == query@,
        !case_sensitive ==> {
            &&& hay@.len() == line@.len()
            &&& need@.len() == query@.len()
            &&& forall|i: int|
                0 <= i < line@.len() ==> (#[trigger] line@[i]) as u32 <= 127 && hay@[i] as int
                    == line@[i] as int + if 65 <= line@[i] as int <= 90 {
                    32int
                } else {
                    0
                }
            &&& forall|i: int|
                0 <= i < query@.len() ==> (#[trigger] query@[i]) as u32 <= 127 && need@[i] as int
                    == query@[i] as int + if 65 <= query@[i] as int <= 90 {
                    32int
                } else {
                    0
                }
        },
    ensures
        hits@ == plain@,
{
    if !case_sensitive {
        assert(ascii(line@) && ascii(query@));
        assert forall|i: int| 0 <= i < line@.len() implies ascii_lowercase(line@[i]) == hay@[i] by {}
        assert forall|i: int| 0 <= i < query@.len() implies ascii_lowercase(query@[i])
            == need@[i] by {}
        assert(ascii_folded(line@) =~= hay@);
        assert(ascii_folded(query@) =~= need@);
    }
}

/// A query without capitals is searched without regard to case, and one with a
/// capital with regard to it.
pub proof fn capitals_make_case_matter(query: &str, sensitive: bool, i: int)
    requires
        call_ensures(smart_case, (query,), sensitive),
        forall|k: int| 0 <= k < query@.len() ==> (#[trigger] query@[k]) as u32 <= 127,
    ensures
        0 <= i < query@.len() && 65 <= query@[i] as int <= 90 ==> sensitive,
        (forall|k: int|
            0 <= k < query@.len() ==> !(65 <= (#[trigger] query@[k]) as int <= 90)) ==> !sensitive,
{
    assert(ascii(query@));
    if 0 <= i < query@.len() && 65 <= query@[i] as int && query@[i] as int <= 90 {
        assert('A' <= query@[i] <= 'Z');
    }
}

/// Stepping goes to the match after, or before, and around the ends; without
/// matches it goes nowhere. The matches and the query stay.
pub proof fn stepping_goes_around(search: &mut Search, other: &mut Search)
    requires
        call_ensures(Search::next, (search,), ()),
        call_ensures(Search::prev, (other,), ()),
        old(other)@ == old(search)@,
        old(search)@.matches.len() == 0 || old(search)@.current < old(search)@.matches.len(),
        old(search)@.current >= 0,
    ensures
        final(search)@.matches == old(search)@.matches,
        final(other)@.matches == old(search)@.matches,
        final(search)@.query == old(search)@.query,
        final(other)@.query == old(search)@.query,
        ({
            let n = old(search)@.matches.len() as int;
            let c = old(search)@.current;
            &&& n == 0 ==> final(search)@.current == c && final(other)@.current == c
            &&& n > 0 && c + 1 < n ==> final(search)@.current == c + 1
            &&& n > 0 && c + 1 == n ==> final(search)@.current == 0
            &&& n > 0 && c > 0 ==> final(other)@.current == c - 1
            &&& n > 0 && c == 0 ==> final(other)@.current == n - 1
        }),
{
    let n = old(search)@.matches.len() as int;
    let c = old(search)@.current;
    if n > 0 {
        if c + 1 < n {
            vstd::arithmetic::div_mod::lemma_small_mod((c + 1) as nat, n as nat);
        } else {
            vstd::arithmetic::div_mod::lemma_mod_self_0(n);
        }
        if c > 0 {
            vstd::arithmetic::div_mod::lemma_mod_add_multiples_vanish(c - 1, n);
            vstd::arithmetic::div_mod::lemma_small_mod((c - 1) as nat, n as nat);
        } else {
            vstd::arithmetic::div_mod::lemma_small_mod((n - 1) as nat, n as nat);
        }
    }
}

/// Opening and closing forget the query and the matches; toggling does whichever of
/// the two changes something.
pub proof fn opening_and_closing_start_over(
    opened: &mut Search,
    closed: &mut Search,
    toggled: &mut Search,
)
    requires
        call_ensures(Search::open, (opened,), ()),
        call_ensures(Search::close, (closed,), ()),
        call_ensures(Search::toggle, (toggled,), ()),
    ensures
        final(opened).open && final(opened)@.query.len() == 0 && final(opened)@.matches.len() == 0,
        final(opened)@.current == 0,
        !final(closed).open && final(closed)@.query.len() == 0 && final(closed)@.matches.len() == 0,
        final(closed)@.current == 0,
        final(toggled).open == !old(toggled).open,
        final(toggled)@.query.len() == 0 && final(toggled)@.matches.len() == 0,
{
}

/// Typing appends to the query and deleting takes its last character; neither
/// touches the rest.
pub proof fn typing_changes_the_query_only(typed: &mut Search, c: char, deleted: &mut Search)
    requires
        call_ensures(Search::type_char, (typed, c), ()),
        call_ensures(Search::backspace, (deleted,), ()),
    ensures
        final(typed)@.query == old(typed)@.query.push(c),
        final(typed)@.open == old(typed)@.open,
        final(typed)@.matches == old(typed)@.matches,
        final(typed)@.current == old(typed)@.current,
        old(deleted)@.query.len() > 0 ==> final(deleted)@.query.push(old(deleted)@.query.last())
            == old(deleted)@.query,
        old(deleted)@.query.len() == 0 ==> final(deleted)@.query.len() == 0,
        final(deleted)@.open == old(deleted)@.open,
        final(deleted)@.matches == old(deleted)@.matches,
        final(deleted)@.current == old(deleted)@.current,
{
    if old(deleted)@.query.len() > 0 {
        assert(final(deleted)@.query.push(old(deleted)@.query.last()) =~= old(deleted)@.query);
    }
}

/// New matches replace the old ones; the place stays where there is a match in it,
/// and is the first one otherwise. The match in that place is the current one.
pub proof fn place_stays_among_new_matches(
    search: &mut Search,
    matches: Vec<Match>,
    other: &Search,
    found: Option<Match>,
)
    requires
        call_ensures(Search::set_matches, (search, matches), ()),
        call_ensures(Search::current_match, (other,), found),
    ensures
        final(search)@.matches == matches@,
        final(search)@.query == old(search)@.query,
        final(search)@.open == old(search)@.open,
        old(search)@.current < matches@.len() ==> final(search)@.current == old(search)@.current,
        old(search)@.current >= matches@.len() ==> final(search)@.current == 0,
        found is Some <==> other@.current < other@.matches.len(),
        found is Some ==> found->0 == other@.matches[other@.current],
{
}

/// From any place a step leads to a match, one place on or back, counted around.
pub proof fn stepping_lands_on_a_match(search: &mut Search, other: &mut Search)
    requires
        call_ensures(Search::next, (search,), ()),
        call_ensures(Search::prev, (other,), ()),
        old(search)@.matches.len() > 0,
        old(other)@.matches.len() > 0,
        old(search)@.current >= 0,
        old(other)@.current >= 0,
    ensures
        ({
            let n = old(search)@.matches.len() as int;
            let (c, d) = (old(search)@.current, final(search)@.current);
            0 <= d < n && (c + 1 - d) % n == 0
        }),
        ({
            let n = old(other)@.matches.len() as int;
            let (c, d) = (old(other)@.current, final(other)@.current);
            0 <= d < n && (c - 1 - d) % n == 0
        }),
        final(search)@.open == old(search)@.open && final(other)@.open == old(other)@.open,
{
    let n = old(search)@.matches.len() as int;
    let c = old(search)@.current;
    remainder_goes_in(c + 1, n);
    let m = old(other)@.matches.len() as int;
    let e = old(other)@.current;
    let d = final(other)@.current;
    remainder_goes_in(e + m - 1, m);
    vstd::arithmetic::div_mod::lemma_mod_add_multiples_vanish(e - 1 - d, m);
    assert(m + (e - 1 - d) == e + m - 1 - d);
}

proof fn remainder_goes_in(x: int, n: int)
    requires
        n > 0,
        x >= 0,
    ensures
        0 <= x % n < n,
        (x - x % n) % n == 0,
{
    vstd::arithmetic::div_mod::lemma_fundamental_div_mod(x, n);
    vstd::arithmetic::div_mod::lemma_mod_multiples_basic(x / n, n);
    assert(n * (x / n) == (x / n) * n) by (nonlinear_arith);
}

} // verus!
