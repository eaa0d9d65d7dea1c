//! Parsed templates and the operations on them.

use vstd::prelude::*;
use vstd::std_specs::cmp::PartialEqSpecImpl;
use crate::grammar::{
    lemma_parse_orderly, lemma_scan_push, lemma_unterminated_iff_odd, parse, scan, sigils,
    well_parsed, Mode,
};
use crate::lookup::{Lookup, SingleLookup};
use crate::model::{
    lemma_rendered_push, lemma_resolved_push, lemma_resolved_well_named, lemma_written_push,
    rendered, resolved, single_binding, well_named, written, Piece, SIGIL,
};
use crate::text::same_text;

verus! {

/// One element of a parsed template.
#[derive(Debug)]
enum Fragment {
    Constant(String),
    Variable(String),
}

impl View for Fragment {
    type V = Piece;

    closed spec fn view(&self) -> Piece {
        match self {
            Fragment::Constant(text) => Piece::Constant(text@),
            Fragment::Variable(name) => Piece::Variable(name@),
        }
    }
}

impl Clone for Fragment {
    fn clone(&self) -> (copy: Self)
        ensures
            copy == *self,
    {
        match self {
            Fragment::Constant(text) => Fragment::Constant(text.clone()),
            Fragment::Variable(name) => Fragment::Variable(name.clone()),
        }
    }
}

impl PartialEq for Fragment {
    fn eq(&self, other: &Self) -> (same: bool) {
        match (self, other) {
            (Fragment::Constant(mine), Fragment::Constant(theirs)) => *mine == *theirs,
            (Fragment::Variable(mine), Fragment::Variable(theirs)) => *mine == *theirs,
            _ => false,
        }
    }
}

impl PartialEqSpecImpl for Fragment {
    open spec fn obeys_eq_spec() -> bool {
        true
    }

    closed spec fn eq_spec(&self, other: &Self) -> bool {
        self@ == other@
    }
}

/// The pieces that a vector of fragments stands for.
spec fn pieces_of(fragments: Seq<Fragment>) -> Seq<Piece> {
    fragments.map_values(|f: Fragment| f@)
}

/// Appending a fragment appends the piece it stands for.
proof fn lemma_pieces_push(fragments: Seq<Fragment>, fragment: Fragment)
    ensures
        pieces_of(fragments.push(fragment)) == pieces_of(fragments).push(fragment@),
{
}

/// Why template text could not be parsed.
#[allow(non_camel_case_types)]
#[derive(Debug, PartialEq, Eq, Structural)]
pub enum ParseError {
    /// The text ends inside a placeholder.
    UNTERMINATED_VARIABLE,
}

/// A parsed template: an ordered sequence of literal text and placeholders.
#[derive(Debug)]
pub struct Template {
    fragments: Vec<Fragment>,
}

impl View for Template {
    type V = Seq<Piece>;

    closed spec fn view(&self) -> Seq<Piece> {
        pieces_of(self.fragments@)
    }
}

impl Template {
    /// Every template keeps its placeholders properly named.
    #[verifier::type_invariant]
    pub open spec fn well_formed(&self) -> bool {
        well_named(self@)
    }

    /// Parses template text.
    ///
    /// Succeeds with the pieces that the grammar assigns to `spec`, and fails
    /// exactly where the text ends inside a placeholder, which is where it
    /// holds an odd number of sigils.
    pub fn new(spec: &str) -> (parsed: Result<Template, ParseError>)
        ensures
            match parse(spec@) {
                Some(pieces) => parsed matches Ok(template) && template@ == pieces,
                None => parsed matches Err(ParseError::UNTERMINATED_VARIABLE),
            },
            parsed is Err <==> sigils(spec@) % 2 == 1,
            parsed matches Ok(template) ==> well_parsed(template@),
    {
        let mut result: Vec<Fragment> = Vec::new();
        let mut buf = String::new();
        let mut mode = Mode::Constant;
        for c in chars: spec.chars()
            invariant
                chars.seq() == spec@,
                pieces_of(result@) == scan(spec@.take(chars.index())).pieces,
                buf@ == scan(spec@.take(chars.index())).pending,
                mode == scan(spec@.take(chars.index())).mode,
        {
            proof {
                let read = spec@.take(chars.index());
                assert(spec@.take(chars.index() + 1) == read.push(c));
                lemma_scan_push(read, c);
            }
            if c == SIGIL {
                match mode {
                    Mode::Constant if !buf.as_str().is_empty() => {
                        proof {
                            lemma_pieces_push(result@, Fragment::Constant(buf));
                        }
                        result.push(Fragment::Constant(buf));
                        buf = String::new();
                        mode = Mode::Variable;
                    },
                    Mode::Variable if buf.as_str().is_empty() => {
                        buf.push(c);
                        mode = Mode::Constant;
                    },
                    Mode::Variable => {
                        proof {
                            lemma_pieces_push(result@, Fragment::Variable(buf));
                        }
                        result.push(Fragment::Variable(buf));
                        buf = String::new();
                        mode = Mode::Constant;
                    },
                    _ => {
                        mode = Mode::Variable;
                    },
                }
            } else {
                buf.push(c);
            }
        }
        proof {
            assert(spec@.take(spec@.len() as int) == spec@);
            lemma_parse_orderly(spec@);
            lemma_unterminated_iff_odd(spec@);
        }
        match mode {
            Mode::Variable => Err(ParseError::UNTERMINATED_VARIABLE),
            Mode::Constant => {
                if !buf.as_str().is_empty() {
                    proof {
                        lemma_pieces_push(result@, Fragment::Constant(buf));
                    }
                    result.push(Fragment::Constant(buf));
                }
                Ok(Template { fragments: result })
            },
        }
    }

    /// Resolves the placeholder `key` to `value`, wherever it occurs.
    pub fn set(self, key: &str, value: &str) -> (template: Template)
        ensures
            template@ == resolved(self@, single_binding(key@, value@)),
            well_named(template@),
    {
        self.partial(&SingleLookup::new(key, value))
    }

    /// Resolves the placeholders that `lookup` binds, each to a constant
    /// holding its value, and keeps every other fragment as it is.
    pub fn partial(&self, lookup: &dyn Lookup) -> (template: Template)
        ensures
            template@ == resolved(self@, lookup.bindings()),
            well_named(template@),
    {
        let mut fragments: Vec<Fragment> = Vec::new();
        for fragment in rest: &self.fragments
            invariant
                rest.seq() == self.fragments@.as_ref(),
                pieces_of(fragments@) == resolved(self@.take(rest.index()), lookup.bindings()),
        {
            let ghost done = self@.take(rest.index());
            proof {
                assert(self@.take(rest.index() + 1) == done.push(fragment@));
                lemma_resolved_push(done, fragment@, lookup.bindings());
            }
            let next = match fragment {
                Fragment::Variable(var) => match lookup.lookup(var.as_str()) {
                    Some(value) => Fragment::Constant(value.to_owned()),
                    None => fragment.clone(),
                },
                Fragment::Constant(_) => fragment.clone(),
            };
            proof {
                lemma_pieces_push(fragments@, next);
            }
            fragments.push(next);
        }
        proof {
            assert(self@.take(self@.len() as int) == self@);
            use_type_invariant(self);
            lemma_resolved_well_named(self@, lookup.bindings());
        }
        Template { fragments }
    }

    /// Renders the template: the constants as they are, each placeholder as
    /// the value that `lookup` binds it to, or as nothing where it is unbound.
    pub fn render(&self, lookup: &dyn Lookup) -> (text: String)
        ensures
            text@ == rendered(self@, lookup.bindings()),
    {
        let mut result = String::new();
        for fragment in rest: &self.fragments
            invariant
                rest.seq() == self.fragments@.as_ref(),
                result@ == rendered(self@.take(rest.index()), lookup.bindings()),
        {
            let ghost done = self@.take(rest.index());
            proof {
                assert(self@.take(rest.index() + 1) == done.push(fragment@));
                lemma_rendered_push(done, fragment@, lookup.bindings());
            }
            match fragment {
                Fragment::Constant(text) => result.append(text.as_str()),
                Fragment::Variable(var) => match lookup.lookup(var.as_str()) {
                    Some(text) => result.append(text),
                    None => (),
                },
            }
        }
        proof {
            assert(self@.take(self@.len() as int) == self@);
        }
        result
    }

    /// Writes the template out as template text.
    pub fn as_spec(&self) -> (text: String)
        ensures
            text@ == written(self@),
    {
        let mut spec = String::new();
        for fragment in rest: &self.fragments
            invariant
                rest.seq() == self.fragments@.as_ref(),
                spec@ == written(self@.take(rest.index())),
        {
            let ghost done = self@.take(rest.index());
            proof {
                assert(self@.take(rest.index() + 1) == done.push(fragment@));
                lemma_written_push(done, fragment@);
                reveal_strlit("$");
                reveal_strlit("$$");
                assert("$"@ == seq![SIGIL]);
                assert("$$"@ == seq![SIGIL, SIGIL]);
            }
            let ghost before = spec@;
            match fragment {
                Fragment::Constant(text) => if same_text(text.as_str(), "$") {
                    spec.append("$$");
                } else {
                    spec.append(text.as_str());
                },
                Fragment::Variable(var) => {
                    spec.push(SIGIL);
                    spec.append(var.as_str());
                    spec.push(SIGIL);
                    assert(spec@ == before + (seq![SIGIL] + var@ + seq![SIGIL]));
                },
            }
        }
        proof {
            assert(self@.take(self@.len() as int) == self@);
        }
        spec
    }
}

impl Clone for Template {
    /// A template of the same pieces.
    fn clone(&self) -> (copy: Self)
        ensures
            copy@ == self@,
    {
        let mut fragments: Vec<Fragment> = Vec::new();
        for fragment in rest: &self.fragments
            invariant
                rest.seq() == self.fragments@.as_ref(),
                pieces_of(fragments@) == self@.take(rest.index()),
        {
            proof {
                assert(self@.take(rest.index() + 1) == self@.take(rest.index()).push(fragment@));
                lemma_pieces_push(fragments@, *fragment);
            }
            fragments.push(fragment.clone());
        }
        proof {
            assert(self@.take(self@.len() as int) == self@);
            use_type_invariant(self);
        }
        Template { fragments }
    }
}

impl PartialEq for Template {
    /// Whether the two templates hold the same pieces.
    fn eq(&self, other: &Self) -> (same: bool) {
        if self.fragments.len() != other.fragments.len() {
            return false;
        }
        let mut i: usize = 0;
        while i < self.fragments.len()
            invariant
                i <= self.fragments.len(),
                self.fragments.len() == other.fragments.len(),
                self@.take(i as int) == other@.take(i as int),
            decreases self.fragments.len() - i,
        {
            if self.fragments[i] != other.fragments[i] {
                assert(self@[i as int] != other@[i as int]);
                return false;
            }
            assert(self@.take(i + 1) == self@.take(i as int).push(self@[i as int]));
            assert(other@.take(i + 1) == other@.take(i as int).push(other@[i as int]));
            i += 1;
        }
        assert(self@.take(self@.len() as int) == self@);
        assert(other@.take(other@.len() as int) == other@);
        true
    }
}

/// What `==` means on templates: that their pieces are the same.
impl PartialEqSpecImpl for Template {
    open spec fn obeys_eq_spec() -> bool {
        true
    }

    open spec fn eq_spec(&self, other: &Self) -> bool {
        self@ == other@
    }
}

} // verus!
