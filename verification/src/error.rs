//! Why a document could not be decoded, and where.

use crate::text::{decimal_text, push_decimal};
use vstd::prelude::*;

verus! {

/// The keys that the schema names.
#[derive(Clone, Copy, Debug, PartialEq, Eq)]
pub enum Field {
    Nodes,
    Edges,
    LastUpdate,
    PubKey,
    Alias,
    Addresses,
    Color,
    Network,
    Addr,
    ChannelId,
    ChanPoint,
    Node1Pub,
    Node2Pub,
    Capacity,
    Node1Policy,
    Node2Policy,
    TimeLockDelta,
    MinHtlc,
    FeeBaseMsat,
    FeeRateMilliMsat,
    Disabled,
    MaxHtlcMsat,
}

impl Field {
    /// The key as it is written in a document. Keys are matched exactly.
    pub open spec fn name(self) -> Seq<char> {
        match self {
            Field::Nodes => "nodes"@,
            Field::Edges => "edges"@,
            Field::LastUpdate => "last_update"@,
            Field::PubKey => "pub_key"@,
            Field::Alias => "alias"@,
            Field::Addresses => "addresses"@,
            Field::Color => "color"@,
            Field::Network => "network"@,
            Field::Addr => "addr"@,
            Field::ChannelId => "channel_id"@,
            Field::ChanPoint => "chan_point"@,
            Field::Node1Pub => "node1_pub"@,
            Field::Node2Pub => "node2_pub"@,
            Field::Capacity => "capacity"@,
            Field::Node1Policy => "node1_policy"@,
            Field::Node2Policy => "node2_policy"@,
            Field::TimeLockDelta => "time_lock_delta"@,
            Field::MinHtlc => "min_htlc"@,
            Field::FeeBaseMsat => "fee_base_msat"@,
            Field::FeeRateMilliMsat => "fee_rate_milli_msat"@,
            Field::Disabled => "disabled"@,
            Field::MaxHtlcMsat => "max_htlc_msat"@,
        }
    }

    /// The key as it is written in a document.
    pub fn key(self) -> (s: &'static str)
        ensures
            s@ == self.name(),
    {
        match self {
            Field::Nodes => "nodes",
            Field::Edges => "edges",
            Field::LastUpdate => "last_update",
            Field::PubKey => "pub_key",
            Field::Alias => "alias",
            Field::Addresses => "addresses",
            Field::Color => "color",
            Field::Network => "network",
            Field::Addr => "addr",
            Field::ChannelId => "channel_id",
            Field::ChanPoint => "chan_point",
            Field::Node1Pub => "node1_pub",
            Field::Node2Pub => "node2_pub",
            Field::Capacity => "capacity",
            Field::Node1Policy => "node1_policy",
            Field::Node2Policy => "node2_policy",
            Field::TimeLockDelta => "time_lock_delta",
            Field::MinHtlc => "min_htlc",
            Field::FeeBaseMsat => "fee_base_msat",
            Field::FeeRateMilliMsat => "fee_rate_milli_msat",
            Field::Disabled => "disabled",
            Field::MaxHtlcMsat => "max_htlc_msat",
        }
    }
}

/// One step on the way from the root of a document to a value in it.
#[derive(Clone, Copy, Debug, PartialEq, Eq)]
pub enum PathStep {
    /// Into the member of an object with this key.
    Key(Field),
    /// Into the item of an array at this position, counted from zero.
    Index(usize),
}

/// The six types of JSON values.
#[derive(Clone, Copy, Debug, PartialEq, Eq)]
pub enum JsonKind {
    Null,
    Bool,
    Number,
    Text,
    Array,
    Object,
}

/// Where in the text the JSON parser gave up: line and column, counted from one.
#[derive(Clone, Copy, Debug, PartialEq, Eq)]
pub struct SyntaxError {
    pub line: usize,
    pub column: usize,
}

/// Why a document could not be decoded. All but `Syntax` carry the path from
/// the root of the document to the value at fault, so that `edges[3].capacity`
/// is `[Key(Edges), Index(3), Key(Capacity)]`.
#[derive(Clone, Debug, PartialEq, Eq)]
pub enum DecodeError {
    /// The text is not well-formed JSON.
    Syntax { line: usize, column: usize },
    /// A required member is absent.
    MissingField { path: Vec<PathStep> },
    /// A value is not of the JSON type that the schema asks for, or is a
    /// number that does not fit the field.
    TypeMismatch { path: Vec<PathStep>, found: JsonKind },
    /// A text does not parse as what the field holds.
    FieldParse { path: Vec<PathStep>, text: String },
}

/// The mathematical value of a [`DecodeError`].
pub enum DecodeErrorView {
    Syntax { line: usize, column: usize },
    MissingField { path: Seq<PathStep> },
    TypeMismatch { path: Seq<PathStep>, found: JsonKind },
    FieldParse { path: Seq<PathStep>, text: Seq<char> },
}

impl View for DecodeError {
    type V = DecodeErrorView;

    open spec fn view(&self) -> DecodeErrorView {
        match self {
            DecodeError::Syntax { line, column } => DecodeErrorView::Syntax {
                line: *line,
                column: *column,
            },
            DecodeError::MissingField { path } => DecodeErrorView::MissingField { path: path@ },
            DecodeError::TypeMismatch { path, found } => DecodeErrorView::TypeMismatch {
                path: path@,
                found: *found,
            },
            DecodeError::FieldParse { path, text } => DecodeErrorView::FieldParse {
                path: path@,
                text: text@,
            },
        }
    }
}

impl DecodeErrorView {
    /// The same error seen from one level up: `step` leads to the value in
    /// which it was found.
    pub open spec fn under(self, step: PathStep) -> DecodeErrorView {
        match self {
            DecodeErrorView::Syntax { line, column } => self,
            DecodeErrorView::MissingField { path } => DecodeErrorView::MissingField {
                path: seq![step] + path,
            },
            DecodeErrorView::TypeMismatch { path, found } => DecodeErrorView::TypeMismatch {
                path: seq![step] + path,
                found,
            },
            DecodeErrorView::FieldParse { path, text } => DecodeErrorView::FieldParse {
                path: seq![step] + path,
                text,
            },
        }
    }

    /// The path from the root to the value at fault; empty for a syntax error.
    pub open spec fn path(self) -> Seq<PathStep> {
        match self {
            DecodeErrorView::Syntax { line, column } => Seq::empty(),
            DecodeErrorView::MissingField { path } => path,
            DecodeErrorView::TypeMismatch { path, found } => path,
            DecodeErrorView::FieldParse { path, text } => path,
        }
    }
}

impl DecodeError {
    /// The same error seen from one level up.
    pub fn under(self, step: PathStep) -> (r: DecodeError)
        ensures
            r@ == self@.under(step),
    {
        match self {
            DecodeError::Syntax { line, column } => DecodeError::Syntax { line, column },
            DecodeError::MissingField { mut path } => {
                path.insert(0, step);
                assert(path@ =~= seq![step] + self@.path());
                DecodeError::MissingField { path }
            },
            DecodeError::TypeMismatch { mut path, found } => {
                path.insert(0, step);
                assert(path@ =~= seq![step] + self@.path());
                DecodeError::TypeMismatch { path, found }
            },
            DecodeError::FieldParse { mut path, text } => {
                path.insert(0, step);
                assert(path@ =~= seq![step] + self@.path());
                DecodeError::FieldParse { path, text }
            },
        }
    }
}

/// One step of a path as it is written in a qualified name: a key after a
/// dot, which the first step of a path leaves out, or a position in brackets.
pub open spec fn step_string(step: PathStep, first: bool) -> Seq<char> {
    match step {
        PathStep::Key(field) => if first {
            field.name()
        } else {
            seq!['.'] + field.name()
        },
        PathStep::Index(i) => seq!['['] + decimal_text(i as nat) + seq![']'],
    }
}

/// A path as a qualified name, such as `edges[3].capacity`.
pub open spec fn path_string(path: Seq<PathStep>) -> Seq<char>
    decreases path.len(),
{
    if path.len() == 0 {
        Seq::empty()
    } else {
        path_string(path.drop_last()) + step_string(path.last(), path.len() == 1)
    }
}

/// Writes a path as a qualified name.
pub fn qualified_name(path: &Vec<PathStep>) -> (r: String)
    ensures
        r@ == path_string(path@),
{
    let mut out = String::new();
    let mut i: usize = 0;
    while i < path.len()
        invariant
            i <= path.len(),
            out@ == path_string(path@.take(i as int)),
        decreases path.len() - i,
    {
        proof {
            reveal_strlit(".");
            reveal_strlit("[");
            reveal_strlit("]");
            assert(path@.take(i + 1).drop_last() =~= path@.take(i as int));
            assert(path@.take(i + 1).last() == path@[i as int]);
        }
        let ghost before = out@;
        match path[i] {
            PathStep::Key(field) => {
                if i > 0 {
                    out.append(".");
                }
                out.append(field.key());
                assert(out@ =~= before + step_string(path@[i as int], i == 0));
            },
            PathStep::Index(k) => {
                out.append("[");
                push_decimal(&mut out, k as u64);
                out.append("]");
                assert(out@ =~= before + step_string(path@[i as int], i == 0));
            },
        }
        i = i + 1;
    }
    assert(path@.take(i as int) =~= path@);
    out
}

impl DecodeError {
    /// The qualified name of the value at fault; empty for a syntax error.
    pub fn place(&self) -> (r: String)
        ensures
            r@ == path_string(self@.path()),
    {
        match self {
            DecodeError::Syntax { line, column } => String::new(),
            DecodeError::MissingField { path } => qualified_name(path),
            DecodeError::TypeMismatch { path, found } => qualified_name(path),
            DecodeError::FieldParse { path, text } => qualified_name(path),
        }
    }
}

} // verus!
