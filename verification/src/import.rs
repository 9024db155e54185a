//! The card import format.
//!
//! An import file names a deck on its first line (`name: <deck name>`,
//! before the first `----`) and then lists cards separated by `----`
//! lines. Each card splits on a single `<>` delimiter into a front and a
//! back; a section with no `<>` or with more than one is malformed and is
//! silently dropped. Every imported card starts at proficiency level 1
//! with its added date and its next-due date equal to the import day.
//!
//! Dates are day numbers: the number of days since the calendar epoch the
//! application counts from.

use crate::text::{
    lemma_split_spec_nonempty, split_on, split_spec, trim, trim_spec, views_of,
};
use vstd::prelude::*;

verus! {

/// `-`, the byte the section delimiter is made of.
pub const DASH: u8 = 45;

/// `<`, the first byte of the card delimiter.
pub const LESS: u8 = 60;

/// `>`, the second byte of the card delimiter.
pub const GREATER: u8 = 62;

/// `:`, the byte that separates the header keyword from the deck name.
pub const COLON: u8 = 58;

/// The section delimiter `----`.
pub open spec fn section_delim() -> Seq<u8> {
    seq![DASH, DASH, DASH, DASH]
}

/// The card delimiter `<>`.
pub open spec fn card_delim() -> Seq<u8> {
    seq![LESS, GREATER]
}

/// The header separator `:`.
pub open spec fn colon_delim() -> Seq<u8> {
    seq![COLON]
}

fn section_delim_vec() -> (r: Vec<u8>)
    ensures
        r@ == section_delim(),
{
    let mut v: Vec<u8> = Vec::new();
    v.push(DASH);
    v.push(DASH);
    v.push(DASH);
    v.push(DASH);
    proof {
        assert(v@ =~= section_delim());
    }
    v
}

fn card_delim_vec() -> (r: Vec<u8>)
    ensures
        r@ == card_delim(),
{
    let mut v: Vec<u8> = Vec::new();
    v.push(LESS);
    v.push(GREATER);
    proof {
        assert(v@ =~= card_delim());
    }
    v
}

fn colon_delim_vec() -> (r: Vec<u8>)
    ensures
        r@ == colon_delim(),
{
    let mut v: Vec<u8> = Vec::new();
    v.push(COLON);
    proof {
        assert(v@ =~= colon_delim());
    }
    v
}

/// A flashcard: a front/back text pair with its scheduling state. A card
/// fresh from an import has no database row yet, which `id == -1` marks.
pub struct Flashcard {
    pub id: i32,
    pub deck_id: i32,
    pub front: Vec<u8>,
    pub back: Vec<u8>,
    pub added: i64,
    pub next: i64,
    pub level: i32,
}

/// The mathematical value of a `Flashcard`.
pub ghost struct CardV {
    pub id: int,
    pub deck_id: int,
    pub front: Seq<u8>,
    pub back: Seq<u8>,
    pub added: int,
    pub next: int,
    pub level: int,
}

impl View for Flashcard {
    type V = CardV;

    open spec fn view(&self) -> CardV {
        CardV {
            id: self.id as int,
            deck_id: self.deck_id as int,
            front: self.front@,
            back: self.back@,
            added: self.added as int,
            next: self.next as int,
            level: self.level as int,
        }
    }
}

/// The views of a sequence of flashcards.
pub open spec fn views_of_cards(cards: Seq<Flashcard>) -> Seq<CardV> {
    cards.map_values(|c: Flashcard| c@)
}

/// A card section is well formed when it holds exactly one `<>`
/// delimiter, so that it splits into exactly a front and a back.
pub open spec fn well_formed_card(sec: Seq<u8>) -> bool {
    split_spec(sec, card_delim()).len() == 2
}

/// The card a well-formed section parses to: front and back from the two
/// sides of the `<>`, level 1, added and next due on day `added`, and no
/// database row yet.
pub open spec fn spec_card(deck_id: int, sec: Seq<u8>, added: int) -> CardV {
    CardV {
        id: -1,
        deck_id: deck_id,
        front: split_spec(sec, card_delim())[0],
        back: split_spec(sec, card_delim())[1],
        added: added,
        next: added,
        level: 1,
    }
}

/// The cards parsed from a sequence of card sections: one per well-formed
/// section, in order; malformed sections contribute nothing.
pub open spec fn spec_parse_cards(deck_id: int, secs: Seq<Seq<u8>>, added: int) -> Seq<CardV>
    decreases secs.len(),
{
    if secs.len() == 0 {
        Seq::empty()
    } else {
        let rest = spec_parse_cards(deck_id, secs.drop_last(), added);
        if well_formed_card(secs.last()) {
            rest.push(spec_card(deck_id, secs.last(), added))
        } else {
            rest
        }
    }
}

/// How many of the sections are well formed.
pub open spec fn well_formed_count(secs: Seq<Seq<u8>>) -> int
    decreases secs.len(),
{
    if secs.len() == 0 {
        0
    } else {
        well_formed_count(secs.drop_last()) + if well_formed_card(secs.last()) {
            1int
        } else {
            0int
        }
    }
}

/// Importing yields exactly one card per well-formed section — malformed
/// sections are excluded from the count — and every imported card starts
/// at level 1, added and next due on the import day, in the named deck.
pub proof fn lemma_parse_cards_properties(deck_id: int, secs: Seq<Seq<u8>>, added: int)
    ensures
        spec_parse_cards(deck_id, secs, added).len() == well_formed_count(secs),
        0 <= well_formed_count(secs) <= secs.len(),
        forall|t: int|
            0 <= t < spec_parse_cards(deck_id, secs, added).len() ==> {
                let c = #[trigger] spec_parse_cards(deck_id, secs, added)[t];
                &&& c.level == 1
                &&& c.added == added
                &&& c.next == added
                &&& c.deck_id == deck_id
                &&& c.id == -1
            },
    decreases secs.len(),
{
    if secs.len() > 0 {
        lemma_parse_cards_properties(deck_id, secs.drop_last(), added);
    }
}

/// The sections of an import file: the pieces between the `----` lines.
pub open spec fn spec_sections(content: Seq<u8>) -> Seq<Seq<u8>> {
    split_spec(content, section_delim())
}

/// The card sections of an import file: every section but the header.
pub open spec fn spec_card_sections(content: Seq<u8>) -> Seq<Seq<u8>> {
    spec_sections(content).drop_first()
}

/// The cards an import file holds.
pub open spec fn spec_import_cards(deck_id: int, content: Seq<u8>, added: int) -> Seq<CardV> {
    spec_parse_cards(deck_id, spec_card_sections(content), added)
}

/// The deck name an import file names: the text between the first and
/// second `:` of the header section, trimmed; none when the header holds
/// no `:`.
pub open spec fn spec_deck_name(content: Seq<u8>) -> Option<Seq<u8>> {
    let header_parts = split_spec(spec_sections(content)[0], colon_delim());
    if header_parts.len() >= 2 {
        Some(trim_spec(header_parts[1]))
    } else {
        None
    }
}

/// Parses the card sections `secs[start..]`, dropping malformed ones.
pub fn parse_cards(deck_id: i32, secs: &Vec<Vec<u8>>, start: usize, added: i64) -> (r: Vec<
    Flashcard,
>)
    requires
        start <= secs@.len(),
    ensures
        views_of_cards(r@) == spec_parse_cards(
            deck_id as int,
            views_of(secs@).subrange(start as int, secs@.len() as int),
            added as int,
        ),
{
    let delim = card_delim_vec();
    let mut out: Vec<Flashcard> = Vec::new();
    proof {
        assert(views_of(secs@).subrange(start as int, start as int) =~= Seq::<Seq<u8>>::empty());
        assert(views_of_cards(out@) =~= Seq::<CardV>::empty());
    }
    let mut k: usize = start;
    while k < secs.len()
        invariant
            start <= k <= secs@.len(),
            delim@ == card_delim(),
            views_of_cards(out@) == spec_parse_cards(
                deck_id as int,
                views_of(secs@).subrange(start as int, k as int),
                added as int,
            ),
        decreases secs@.len() - k,
    {
        let ghost old_out = out@;
        let ghost prefix = views_of(secs@).subrange(start as int, k as int);
        let ghost prefix1 = views_of(secs@).subrange(start as int, (k + 1) as int);
        proof {
            assert(prefix1.drop_last() =~= prefix);
            assert(prefix1.last() == secs@[k as int]@);
        }
        let mut parts = split_on(&secs[k], &delim);
        if parts.len() == 2 {
            let ghost pv = parts@;
            let back = parts.pop().unwrap();
            let front = parts.pop().unwrap();
            proof {
                assert(back == pv[1]);
                assert(front == pv.subrange(0, 1)[0]);
                assert(front@ == views_of(pv)[0]);
                assert(back@ == views_of(pv)[1]);
            }
            let card = Flashcard { id: -1, deck_id, front, back, added, next: added, level: 1 };
            out.push(card);
            proof {
                assert(card@ == spec_card(deck_id as int, prefix1.last(), added as int));
                assert(views_of_cards(out@) =~= views_of_cards(old_out).push(card@));
            }
        } else {
            proof {
                assert(!well_formed_card(prefix1.last()));
            }
        }
        k = k + 1;
    }
    proof {
        assert(views_of(secs@).subrange(start as int, k as int) == views_of(secs@).subrange(
            start as int,
            secs@.len() as int,
        ));
    }
    out
}

/// Parses a whole import file into its cards: the content splits on
/// `----`, the first section is the header, and every well-formed card
/// section after it becomes a new card in deck `deck_id`, added on day
/// `added`.
pub fn import_cards(deck_id: i32, content: &Vec<u8>, added: i64) -> (r: Vec<Flashcard>)
    ensures
        views_of_cards(r@) == spec_import_cards(deck_id as int, content@, added as int),
{
    let dashes = section_delim_vec();
    let secs = split_on(content, &dashes);
    proof {
        lemma_split_spec_nonempty(content@, section_delim());
        assert(views_of(secs@).subrange(1, secs@.len() as int) =~= spec_card_sections(content@));
    }
    parse_cards(deck_id, &secs, 1, added)
}

/// Reads the deck name out of an import file's header section.
pub fn import_deck_name(content: &Vec<u8>) -> (r: Option<Vec<u8>>)
    ensures
        match r {
            Some(name) => spec_deck_name(content@) == Some(name@),
            None => spec_deck_name(content@) is None,
        },
{
    let dashes = section_delim_vec();
    let secs = split_on(content, &dashes);
    proof {
        lemma_split_spec_nonempty(content@, section_delim());
        assert(secs@[0]@ == spec_sections(content@)[0]);
    }
    let colon = colon_delim_vec();
    let parts = split_on(&secs[0], &colon);
    if parts.len() >= 2 {
        let name = trim(&parts[1]);
        proof {
            assert(parts@[1]@ == split_spec(spec_sections(content@)[0], colon_delim())[1]);
        }
        Some(name)
    } else {
        None
    }
}

} // verus!
