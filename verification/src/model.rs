//! The mathematical model that the contracts of this crate are stated over:
//! pieces of a template, the bindings a lookup offers, and what rendering,
//! resolving and writing out mean.

use vstd::prelude::*;

verus! {

/// The character that delimits a placeholder in template text.
pub const SIGIL: char = '$';

/// What a lookup offers: a partial map from placeholder names to values.
pub type Bindings = Map<Seq<char>, Seq<char>>;

/// One element of a template: literal text, or a placeholder known by name.
pub enum Piece {
    Constant(Seq<char>),
    Variable(Seq<char>),
}

impl Piece {
    /// The text this piece contributes to a rendering: a constant its own
    /// text, a placeholder its bound value, or nothing where it is unbound.
    pub open spec fn rendered(self, bindings: Bindings) -> Seq<char> {
        match self {
            Piece::Constant(text) => text,
            Piece::Variable(name) => if bindings.contains_key(name) {
                bindings[name]
            } else {
                Seq::empty()
            },
        }
    }

    /// This piece after substitution: a bound placeholder becomes a constant
    /// holding its value, every other piece stays as it is.
    pub open spec fn resolved(self, bindings: Bindings) -> Piece {
        match self {
            Piece::Variable(name) if bindings.contains_key(name) => Piece::Constant(bindings[name]),
            _ => self,
        }
    }

    /// This piece in template text: a placeholder between two sigils, a
    /// constant that is exactly one sigil doubled, any other constant as is.
    pub open spec fn written(self) -> Seq<char> {
        match self {
            Piece::Constant(text) => if text == seq![SIGIL] {
                seq![SIGIL, SIGIL]
            } else {
                text
            },
            Piece::Variable(name) => seq![SIGIL] + name + seq![SIGIL],
        }
    }
}

/// The rendering of a sequence of pieces: their contributions, in order.
pub open spec fn rendered(pieces: Seq<Piece>, bindings: Bindings) -> Seq<char> {
    pieces.map_values(|p: Piece| p.rendered(bindings)).flatten()
}

/// A sequence of pieces after substitution, piece by piece.
pub open spec fn resolved(pieces: Seq<Piece>, bindings: Bindings) -> Seq<Piece> {
    pieces.map_values(|p: Piece| p.resolved(bindings))
}

/// A sequence of pieces written out as template text.
pub open spec fn written(pieces: Seq<Piece>) -> Seq<char> {
    pieces.map_values(|p: Piece| p.written()).flatten()
}

/// Whether every placeholder among `pieces` has a proper name: one that is
/// not empty and holds no sigil.
pub open spec fn well_named(pieces: Seq<Piece>) -> bool {
    forall|i: int|
        0 <= i < pieces.len() ==> (#[trigger] pieces[i] matches Piece::Variable(name)
            ==> name.len() > 0 && !name.contains(SIGIL))
}

/// The bindings of a lookup that answers every name with `value`.
pub open spec fn constant_bindings(value: Seq<char>) -> Bindings {
    Map::total(|name: Seq<char>| value)
}

/// The bindings of a lookup that knows `key` alone.
pub open spec fn single_binding(key: Seq<char>, value: Seq<char>) -> Bindings {
    Map::empty().insert(key, value)
}

/// The bindings of a chain of lookups: a name is bound where some member
/// binds it, and to the value that the first such member gives.
pub open spec fn chained(members: Seq<Bindings>) -> Bindings
    decreases members.len(),
{
    if members.len() == 0 {
        Map::empty()
    } else {
        chained(members.drop_first()).union_prefer_right(members.first())
    }
}

/// A chain binds a name that its member `i` binds and no earlier member
/// does, and gives it that member's value.
pub proof fn lemma_chained_first(members: Seq<Bindings>, name: Seq<char>, i: int)
    requires
        0 <= i < members.len(),
        members[i].contains_key(name),
        forall|j: int| 0 <= j < i ==> !(#[trigger] members[j]).contains_key(name),
    ensures
        chained(members).contains_key(name),
        chained(members)[name] == members[i][name],
    decreases members.len(),
{
    if i > 0 {
        let rest = members.drop_first();
        assert forall|j: int| 0 <= j < i - 1 implies !(#[trigger] rest[j]).contains_key(name) by {
            assert(rest[j] == members[j + 1]);
        }
        lemma_chained_first(rest, name, i - 1);
        assert(!members[0].contains_key(name));
    }
}

/// A chain leaves unbound a name that none of its members binds.
pub proof fn lemma_chained_unbound(members: Seq<Bindings>, name: Seq<char>)
    requires
        forall|j: int| 0 <= j < members.len() ==> !(#[trigger] members[j]).contains_key(name),
    ensures
        !chained(members).contains_key(name),
    decreases members.len(),
{
    if members.len() > 0 {
        let rest = members.drop_first();
        assert forall|j: int| 0 <= j < rest.len() implies !(#[trigger] rest[j]).contains_key(
            name,
        ) by {
            assert(rest[j] == members[j + 1]);
        }
        lemma_chained_unbound(rest, name);
        assert(!members[0].contains_key(name));
    }
}

/// Appending a piece appends its contribution to the rendering.
pub proof fn lemma_rendered_push(pieces: Seq<Piece>, piece: Piece, bindings: Bindings)
    ensures
        rendered(pieces.push(piece), bindings) == rendered(pieces, bindings) + piece.rendered(
            bindings,
        ),
{
    let each = |p: Piece| p.rendered(bindings);
    assert(pieces.push(piece).map_values(each) =~= pieces.map_values(each).push(each(piece)));
    pieces.map_values(each).lemma_flatten_push(each(piece));
}

/// Appending a piece appends its substitution.
pub proof fn lemma_resolved_push(pieces: Seq<Piece>, piece: Piece, bindings: Bindings)
    ensures
        resolved(pieces.push(piece), bindings) == resolved(pieces, bindings).push(
            piece.resolved(bindings),
        ),
{
}

/// Appending a piece appends its spelling to the template text.
pub proof fn lemma_written_push(pieces: Seq<Piece>, piece: Piece)
    ensures
        written(pieces.push(piece)) == written(pieces) + piece.written(),
{
    let each = |p: Piece| p.written();
    assert(pieces.push(piece).map_values(each) =~= pieces.map_values(each).push(each(piece)));
    pieces.map_values(each).lemma_flatten_push(each(piece));
}

/// Substitution keeps placeholders properly named.
pub proof fn lemma_resolved_well_named(pieces: Seq<Piece>, bindings: Bindings)
    requires
        well_named(pieces),
    ensures
        well_named(resolved(pieces, bindings)),
{
    assert forall|i: int| 0 <= i < pieces.len() implies (#[trigger] resolved(
        pieces,
        bindings,
    )[i] matches Piece::Variable(name) ==> name.len() > 0 && !name.contains(SIGIL)) by {
        assert(resolved(pieces, bindings)[i] == pieces[i].resolved(bindings));
    }
}

} // verus!
