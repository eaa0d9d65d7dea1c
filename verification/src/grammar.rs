//! The grammar of template text, given as the scanner that reads it: a
//! machine with two modes and one pending buffer, run over the characters
//! from left to right.

use vstd::prelude::*;
use crate::model::{well_named, Piece, SIGIL};

verus! {

/// Where the scanner stands: in literal text, or inside a placeholder.
pub enum Mode {
    Constant,
    Variable,
}

/// The scanner between two characters: the pieces it has emitted, the
/// characters it has gathered since, and its mode.
pub struct Scan {
    pub pieces: Seq<Piece>,
    pub pending: Seq<char>,
    pub mode: Mode,
}

impl Scan {
    /// The scanner before the first character.
    pub open spec fn start() -> Scan {
        Scan { pieces: Seq::empty(), pending: Seq::empty(), mode: Mode::Constant }
    }

    /// The scanner after one more character.
    ///
    /// A character other than the sigil joins the pending buffer. A sigil in
    /// literal text ends that text, emitting it unless it is empty, and opens
    /// a placeholder. A sigil inside a placeholder closes it: with a pending
    /// name the placeholder is emitted; with none, the two sigils were an
    /// escape, and a literal sigil starts the next stretch of literal text.
    pub open spec fn step(self, c: char) -> Scan {
        if c != SIGIL {
            Scan { pending: self.pending.push(c), ..self }
        } else {
            match self.mode {
                Mode::Constant => if self.pending.len() > 0 {
                    Scan {
                        pieces: self.pieces.push(Piece::Constant(self.pending)),
                        pending: Seq::empty(),
                        mode: Mode::Variable,
                    }
                } else {
                    Scan { mode: Mode::Variable, ..self }
                },
                Mode::Variable => if self.pending.len() > 0 {
                    Scan {
                        pieces: self.pieces.push(Piece::Variable(self.pending)),
                        pending: Seq::empty(),
                        mode: Mode::Constant,
                    }
                } else {
                    Scan { pending: seq![SIGIL], mode: Mode::Constant, ..self }
                },
            }
        }
    }

    /// What the scanner yields at the end of the text: nothing while a
    /// placeholder is open, else the pieces, with the pending literal text
    /// as a last constant unless it is empty.
    pub open spec fn finish(self) -> Option<Seq<Piece>> {
        match self.mode {
            Mode::Variable => None,
            Mode::Constant => if self.pending.len() > 0 {
                Some(self.pieces.push(Piece::Constant(self.pending)))
            } else {
                Some(self.pieces)
            },
        }
    }

    /// What holds of the scanner wherever it stands. Its pieces are as
    /// parsing leaves them. The pending buffer holds a sigil at most as its
    /// first character, and none at all inside a placeholder. In literal
    /// text that follows an emitted constant, the buffer begins with the
    /// sigil of an escape.
    pub open spec fn orderly(self) -> bool {
        &&& well_parsed(self.pieces)
        &&& sigil_only_first(self.pending)
        &&& self.mode is Variable ==> !self.pending.contains(SIGIL)
        &&& self.mode is Constant && self.pieces.len() > 0 && self.pieces.last() is Constant
            ==> begins_with_sigil(self.pending)
    }
}

/// The scanner after all of `text`.
pub open spec fn scan(text: Seq<char>) -> Scan
    decreases text.len(),
{
    if text.len() == 0 {
        Scan::start()
    } else {
        scan(text.drop_last()).step(text.last())
    }
}

/// The pieces that `text` denotes, or `None` where it ends inside a
/// placeholder.
pub open spec fn parse(text: Seq<char>) -> Option<Seq<Piece>> {
    scan(text).finish()
}

/// How many sigils `text` holds.
pub open spec fn sigils(text: Seq<char>) -> nat {
    text.filter(|c: char| c == SIGIL).len()
}

/// Whether `text` holds a sigil nowhere but, at most, as its first character.
pub open spec fn sigil_only_first(text: Seq<char>) -> bool {
    forall|i: int| 0 < i < text.len() ==> text[i] != SIGIL
}

/// Whether `text` begins with a sigil.
pub open spec fn begins_with_sigil(text: Seq<char>) -> bool {
    text.len() > 0 && text[0] == SIGIL
}

/// Whether the piece at `i`, if it is a constant that follows a constant,
/// begins with a sigil.
pub open spec fn gathered_at(pieces: Seq<Piece>, i: int) -> bool {
    pieces[i - 1] is Constant ==> (pieces[i] matches Piece::Constant(text) ==> begins_with_sigil(
        text,
    ))
}

/// Whether `pieces` are as parsing leaves them. Each placeholder is properly
/// named. Each constant is not empty and holds a sigil at most as its first
/// character, where an escape put it. Literal text is gathered into one
/// constant: a constant follows a constant only where it begins with the
/// sigil of an escape.
pub open spec fn well_parsed(pieces: Seq<Piece>) -> bool {
    &&& well_named(pieces)
    &&& forall|i: int|
        0 <= i < pieces.len() ==> (#[trigger] pieces[i] matches Piece::Constant(text)
            ==> text.len() > 0 && sigil_only_first(text))
    &&& forall|i: int| 0 < i < pieces.len() ==> #[trigger] gathered_at(pieces, i)
}

/// Scanning a text with one more character is one more step of the scanner.
pub proof fn lemma_scan_push(text: Seq<char>, c: char)
    ensures
        scan(text.push(c)) == scan(text).step(c),
{
    assert(text.push(c).drop_last() == text);
}

/// Appending a piece to well parsed pieces leaves them well parsed, where
/// the piece is as parsing leaves one and, if it is a constant that follows
/// a constant, begins with a sigil.
proof fn lemma_well_parsed_push(pieces: Seq<Piece>, piece: Piece)
    requires
        well_parsed(pieces),
        match piece {
            Piece::Variable(name) => name.len() > 0 && !name.contains(SIGIL),
            Piece::Constant(text) => {
                &&& text.len() > 0
                &&& sigil_only_first(text)
                &&& pieces.len() > 0 && pieces.last() is Constant ==> begins_with_sigil(text)
            },
        },
    ensures
        well_parsed(pieces.push(piece)),
{
    let longer = pieces.push(piece);
    assert forall|i: int| 0 <= i < longer.len() implies {
        &&& #[trigger] longer[i] matches Piece::Variable(name) ==> name.len() > 0
            && !name.contains(SIGIL)
        &&& longer[i] matches Piece::Constant(text) ==> text.len() > 0 && sigil_only_first(text)
    } by {
        if i < pieces.len() {
            assert(longer[i] == pieces[i]);
        }
    }
    assert forall|i: int| 0 < i < longer.len() implies #[trigger] gathered_at(longer, i) by {
        if i < pieces.len() {
            assert(gathered_at(pieces, i));
        }
    }
}

/// One step keeps the scanner orderly.
pub proof fn lemma_step_orderly(before: Scan, c: char)
    requires
        before.orderly(),
    ensures
        before.step(c).orderly(),
{
    let after = before.step(c);
    if c != SIGIL {
        if before.mode is Variable {
            assert forall|i: int| 0 <= i < after.pending.len() implies after.pending[i]
                != SIGIL by {
                if i < before.pending.len() {
                    assert(before.pending.contains(before.pending[i]));
                }
            }
        }
    } else if before.pending.len() > 0 {
        match before.mode {
            Mode::Constant => lemma_well_parsed_push(
                before.pieces,
                Piece::Constant(before.pending),
            ),
            Mode::Variable => lemma_well_parsed_push(
                before.pieces,
                Piece::Variable(before.pending),
            ),
        }
    }
}

/// The scanner is orderly after any text.
pub proof fn lemma_scan_orderly(text: Seq<char>)
    ensures
        scan(text).orderly(),
    decreases text.len(),
{
    if text.len() > 0 {
        lemma_scan_orderly(text.drop_last());
        lemma_step_orderly(scan(text.drop_last()), text.last());
    }
}

/// What parses, parses to well parsed pieces.
pub proof fn lemma_parse_orderly(text: Seq<char>)
    ensures
        parse(text) matches Some(pieces) ==> well_parsed(pieces),
{
    lemma_scan_orderly(text);
    let end = scan(text);
    if end.mode is Constant && end.pending.len() > 0 {
        lemma_well_parsed_push(end.pieces, Piece::Constant(end.pending));
    }
}

/// The scanner is inside a placeholder exactly after an odd number of
/// sigils.
proof fn lemma_scan_mode(text: Seq<char>)
    ensures
        scan(text).mode is Variable <==> sigils(text) % 2 == 1,
    decreases text.len(),
{
    let is_sigil = |c: char| c == SIGIL;
    if text.len() > 0 {
        let front = text.drop_last();
        lemma_scan_mode(front);
        assert(front.push(text.last()) == text);
        front.lemma_filter_len_push(is_sigil, text.last());
    } else {
        text.lemma_filter_len(is_sigil);
    }
}

/// Text fails to parse exactly where it holds an odd number of sigils.
pub proof fn lemma_unterminated_iff_odd(text: Seq<char>)
    ensures
        parse(text) is None <==> sigils(text) % 2 == 1,
{
    lemma_scan_mode(text);
}

} // verus!
