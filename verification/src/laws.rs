//! What holds across parsing, rendering, substitution and writing out, each
//! theorem proved from the model that the contracts of the executable
//! functions are stated over. For a template `t` and a lookup `l`, read
//! `pieces` as `t@` and `bindings` as `l.bindings()`.

use vstd::prelude::*;
use crate::grammar::{
    begins_with_sigil, gathered_at, lemma_parse_orderly, parse, scan, sigil_only_first,
    well_parsed, Mode, Scan,
};
use crate::model::{
    chained, lemma_written_push, rendered, resolved, single_binding, written, Bindings, Piece,
    SIGIL,
};

verus! {

/// The empty text parses to the empty template, and the empty template
/// renders to the empty text whatever the lookup binds.
pub proof fn lemma_empty_template(bindings: Bindings)
    ensures
        parse(Seq::empty()) == Some(Seq::<Piece>::empty()),
        rendered(Seq::empty(), bindings) == Seq::<char>::empty(),
{
    assert(Seq::<Piece>::empty().map_values(|p: Piece| p.rendered(bindings)) =~= Seq::<
        Seq<char>,
    >::empty());
}

/// Text without a sigil is all pending literal text to the scanner.
proof fn lemma_scan_plain(text: Seq<char>)
    requires
        !text.contains(SIGIL),
    ensures
        scan(text) == (Scan { pieces: Seq::empty(), pending: text, mode: Mode::Constant }),
    decreases text.len(),
{
    if text.len() > 0 {
        let front = text.drop_last();
        assert forall|i: int| 0 <= i < front.len() implies front[i] != SIGIL by {
            assert(text[i] == front[i]);
            assert(text.contains(text[i]));
        }
        lemma_scan_plain(front);
        assert(text.contains(text.last()));
        assert(front.push(text.last()) =~= text);
    } else {
        assert(text =~= Seq::empty());
    }
}

/// Text without a sigil parses to one constant holding the whole text, or
/// to the empty template where the text is empty, and renders to itself
/// whatever the lookup binds.
pub proof fn lemma_plain_text(text: Seq<char>, bindings: Bindings)
    requires
        !text.contains(SIGIL),
    ensures
        text.len() > 0 ==> parse(text) == Some(seq![Piece::Constant(text)]),
        text.len() == 0 ==> parse(text) == Some(Seq::<Piece>::empty()),
        parse(text) matches Some(pieces) && rendered(pieces, bindings) == text,
{
    lemma_scan_plain(text);
    if text.len() > 0 {
        let pieces = seq![Piece::Constant(text)];
        assert(Seq::<Piece>::empty().push(Piece::Constant(text)) =~= pieces);
        let each = |p: Piece| p.rendered(bindings);
        assert(pieces.map_values(each) =~= seq![text]);
        seq![text].lemma_flatten_one_element();
    } else {
        lemma_empty_template(bindings);
        assert(text =~= Seq::empty());
    }
}

/// Rendering after substitution under the same bindings gives what rendering
/// at once gives.
pub proof fn lemma_partial_then_render(pieces: Seq<Piece>, bindings: Bindings)
    ensures
        rendered(resolved(pieces, bindings), bindings) == rendered(pieces, bindings),
{
    assert(resolved(pieces, bindings).map_values(|p: Piece| p.rendered(bindings))
        =~= pieces.map_values(|p: Piece| p.rendered(bindings)));
}

/// Substituting under `first` and rendering under `second` gives what
/// rendering under the chain of `first`, then `second`, gives.
pub proof fn lemma_partial_then_render_other(pieces: Seq<Piece>, first: Bindings, second: Bindings)
    ensures
        rendered(resolved(pieces, first), second) == rendered(
            pieces,
            chained(seq![first, second]),
        ),
{
    lemma_chained_pair(first, second);
    assert(resolved(pieces, first).map_values(|p: Piece| p.rendered(second))
        =~= pieces.map_values(|p: Piece| p.rendered(chained(seq![first, second]))));
}

/// Substituting under `first` and then under `second` gives what
/// substituting under the chain of `first`, then `second`, gives.
pub proof fn lemma_partial_twice(pieces: Seq<Piece>, first: Bindings, second: Bindings)
    ensures
        resolved(resolved(pieces, first), second) == resolved(
            pieces,
            chained(seq![first, second]),
        ),
{
    lemma_chained_pair(first, second);
}

/// A chain of two binds what either binds, and prefers the first.
pub proof fn lemma_chained_pair(first: Bindings, second: Bindings)
    ensures
        chained(seq![first, second]) == second.union_prefer_right(first),
{
    let pair = seq![first, second];
    assert(pair.drop_first() =~= seq![second]);
    assert(seq![second].drop_first() =~= Seq::<Bindings>::empty());
    assert(chained(seq![second]) =~= second) by {
        assert(chained(seq![second]) == chained(
            Seq::<Bindings>::empty(),
        ).union_prefer_right(second));
    }
    assert(chained(pair) == chained(seq![second]).union_prefer_right(first));
}

/// Setting two different names one after the other and rendering with
/// nothing bound gives what rendering under both bindings at once gives.
pub proof fn lemma_set_twice(
    pieces: Seq<Piece>,
    a: Seq<char>,
    a_value: Seq<char>,
    b: Seq<char>,
    b_value: Seq<char>,
)
    requires
        a != b,
    ensures
        rendered(
            resolved(resolved(pieces, single_binding(a, a_value)), single_binding(b, b_value)),
            Map::empty(),
        ) == rendered(pieces, Map::empty().insert(a, a_value).insert(b, b_value)),
{
    let both = Map::<Seq<char>, Seq<char>>::empty().insert(a, a_value).insert(b, b_value);
    let staged = resolved(
        resolved(pieces, single_binding(a, a_value)),
        single_binding(b, b_value),
    );
    assert(staged.map_values(|p: Piece| p.rendered(Map::empty())) =~= pieces.map_values(
        |p: Piece| p.rendered(both),
    ));
}

/// The text that a piece was parsed from: a placeholder between two sigils,
/// a constant as it is, but for the sigil it may begin with, which is
/// doubled.
pub open spec fn source_of(piece: Piece) -> Seq<char> {
    match piece {
        Piece::Constant(text) => if begins_with_sigil(text) {
            seq![SIGIL] + text
        } else {
            text
        },
        Piece::Variable(name) => seq![SIGIL] + name + seq![SIGIL],
    }
}

/// The text that a sequence of pieces was parsed from.
pub open spec fn source(pieces: Seq<Piece>) -> Seq<char> {
    pieces.map_values(|p: Piece| source_of(p)).flatten()
}

/// Whether the constant `text` is written out as it was parsed: it holds no
/// sigil, or is exactly one sigil.
pub open spec fn spelled_plainly(text: Seq<char>) -> bool {
    !text.contains(SIGIL) || text == seq![SIGIL]
}

/// Whether every constant among `pieces` is spelled plainly.
pub open spec fn reads_back(pieces: Seq<Piece>) -> bool {
    forall|i: int|
        0 <= i < pieces.len() ==> (#[trigger] pieces[i] matches Piece::Constant(text)
            ==> spelled_plainly(text))
}

/// Appending a piece appends the text it was parsed from.
proof fn lemma_source_push(pieces: Seq<Piece>, piece: Piece)
    ensures
        source(pieces.push(piece)) == source(pieces) + source_of(piece),
{
    let each = |p: Piece| source_of(p);
    assert(pieces.push(piece).map_values(each) =~= pieces.map_values(each).push(each(piece)));
    pieces.map_values(each).lemma_flatten_push(each(piece));
}

/// The text that the scanner has yet to emit: the pending constant as it
/// was read, or an open placeholder.
spec fn pending_source(held: Scan) -> Seq<char> {
    match held.mode {
        Mode::Constant => source_of(Piece::Constant(held.pending)),
        Mode::Variable => seq![SIGIL] + held.pending,
    }
}

/// What the scanner holds stands for the text it has read.
proof fn lemma_scan_source(text: Seq<char>)
    ensures
        source(scan(text).pieces) + pending_source(scan(text)) == text,
    decreases text.len(),
{
    if text.len() > 0 {
        let before = scan(text.drop_last());
        let c = text.last();
        lemma_scan_source(text.drop_last());
        assert(text.drop_last() + seq![c] == text);
        if c == SIGIL && before.pending.len() > 0 {
            match before.mode {
                Mode::Constant => lemma_source_push(before.pieces, Piece::Constant(before.pending)),
                Mode::Variable => lemma_source_push(before.pieces, Piece::Variable(before.pending)),
            }
        }
        assert(source(before.step(c).pieces) + pending_source(before.step(c)) == source(
            before.pieces,
        ) + pending_source(before) + seq![c]);
    } else {
        assert(Seq::<Piece>::empty().map_values(|p: Piece| source_of(p)) =~= Seq::<
            Seq<char>,
        >::empty());
    }
}

/// Parsing loses nothing: the pieces that a text parses to stand for that
/// text.
pub proof fn lemma_parse_source(text: Seq<char>)
    ensures
        parse(text) matches Some(pieces) ==> source(pieces) == text,
{
    let end = scan(text);
    lemma_scan_source(text);
    if end.mode is Constant && end.pending.len() > 0 {
        lemma_source_push(end.pieces, Piece::Constant(end.pending));
    }
}

/// A piece as parsing leaves one is written out no longer than the text it
/// was parsed from, and as that text exactly where, if it is a constant, it
/// is spelled plainly.
proof fn lemma_written_piece(piece: Piece)
    requires
        piece matches Piece::Constant(text) ==> sigil_only_first(text),
    ensures
        piece.written().len() <= source_of(piece).len(),
        piece.written() == source_of(piece) <==> (piece matches Piece::Constant(text)
            ==> spelled_plainly(text)),
        piece.written() == source_of(piece) <==> piece.written().len() == source_of(piece).len(),
{
    if let Piece::Constant(text) = piece {
        if text.contains(SIGIL) {
            let i = choose|i: int| 0 <= i < text.len() && text[i] == SIGIL;
            assert(i == 0);
            if text.len() == 1 {
                assert(text =~= seq![SIGIL]);
                assert(seq![SIGIL] + text =~= seq![SIGIL, SIGIL]);
            }
        } else if text.len() > 0 {
            assert(text.contains(text[0]));
        }
    }
}

/// Pieces as parsing leaves them are written out no longer than the text
/// they were parsed from, and to the same length only where every constant
/// is spelled plainly.
proof fn lemma_written_length(pieces: Seq<Piece>)
    requires
        well_parsed(pieces),
    ensures
        written(pieces).len() <= source(pieces).len(),
        written(pieces).len() == source(pieces).len() ==> reads_back(pieces),
    decreases pieces.len(),
{
    if pieces.len() > 0 {
        let front = pieces.drop_last();
        let last = pieces.last();
        assert(front.push(last) == pieces);
        assert(well_parsed(front)) by {
            assert forall|i: int| 0 <= i < front.len() implies front[i] == pieces[i] by {}
            assert forall|i: int| 0 < i < front.len() implies #[trigger] gathered_at(front, i) by {
                assert(gathered_at(pieces, i));
            }
        }
        lemma_written_length(front);
        lemma_written_push(front, last);
        lemma_source_push(front, last);
        lemma_written_piece(last);
        if written(pieces).len() == source(pieces).len() {
            assert forall|i: int| 0 <= i < pieces.len() implies (
            #[trigger] pieces[i] matches Piece::Constant(text) ==> spelled_plainly(text)) by {
                if i < front.len() {
                    assert(front[i] == pieces[i]);
                }
            }
        }
    } else {
        assert(pieces.map_values(|p: Piece| p.written()) =~= Seq::<Seq<char>>::empty());
        assert(pieces.map_values(|p: Piece| source_of(p)) =~= Seq::<Seq<char>>::empty());
    }
}

/// Writing out what was parsed gives the text back exactly where every
/// constant that the text parsed to is spelled plainly.
///
/// An escaped sigil that runs on into further literal text is not: `$$a`
/// parses to the one constant `$a`, which is written out as `$a`.
pub proof fn lemma_written_inverts_parse(text: Seq<char>)
    ensures
        parse(text) matches Some(pieces) ==> (written(pieces) == text <==> reads_back(pieces)),
{
    if let Some(pieces) = parse(text) {
        lemma_parse_orderly(text);
        lemma_parse_source(text);
        lemma_written_length(pieces);
        if reads_back(pieces) {
            assert(pieces.map_values(|p: Piece| p.written()) =~= pieces.map_values(
                |p: Piece| source_of(p),
            )) by {
                assert forall|i: int| 0 <= i < pieces.len() implies pieces[i].written()
                    == source_of(pieces[i]) by {
                    lemma_written_piece(pieces[i]);
                }
            }
        }
    }
}

} // verus!
