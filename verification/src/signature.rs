//! What the function of a stage's component takes and gives: the records of its
//! signature, read off the types of the binary.

use vstd::prelude::*;
use wasmparser::types::{ComponentDefinedType, ComponentEntityType, ComponentValType, Types};

verus! {

/// `wasmparser::types::Types`: the types of a binary that has been validated.
#[verifier::external_type_specification]
#[verifier::external_body]
pub struct ExTypes(Types);

/// `wasmparser::types::ComponentValType`: one of those types.
#[verifier::external_type_specification]
#[verifier::external_body]
pub struct ExComponentValType(ComponentValType);

/// `wasmparser::types::ComponentDefinedType`: what such a type is defined as.
#[verifier::external_type_specification]
#[verifier::external_body]
pub struct ExComponentDefinedType(ComponentDefinedType);

/// The kinds of types, with the types that they are made of where those have no
/// names.
pub enum TypeKind {
    /// A type that has no parts, by its name.
    Plain(String),
    Record,
    Variant,
    List(ComponentValType),
    Tuple(Vec<ComponentValType>),
    Flags,
    Enumeration,
    Maybe(ComponentValType),
    Outcome(Option<ComponentValType>, Option<ComponentValType>),
    Own,
    Borrow,
}

/// The kinds of types, for contracts.
pub enum KindModel {
    Plain(Seq<char>),
    Record,
    Variant,
    List(ComponentValType),
    Tuple(Seq<ComponentValType>),
    Flags,
    Enumeration,
    Maybe(ComponentValType),
    Outcome(Option<ComponentValType>, Option<ComponentValType>),
    Own,
    Borrow,
}

impl View for TypeKind {
    type V = KindModel;

    open spec fn view(&self) -> KindModel {
        match *self {
            TypeKind::Plain(name) => KindModel::Plain(name@),
            TypeKind::Record => KindModel::Record,
            TypeKind::Variant => KindModel::Variant,
            TypeKind::List(t) => KindModel::List(t),
            TypeKind::Tuple(parts) => KindModel::Tuple(parts@),
            TypeKind::Flags => KindModel::Flags,
            TypeKind::Enumeration => KindModel::Enumeration,
            TypeKind::Maybe(t) => KindModel::Maybe(t),
            TypeKind::Outcome(ok, err) => KindModel::Outcome(ok, err),
            TypeKind::Own => KindModel::Own,
            TypeKind::Borrow => KindModel::Borrow,
        }
    }
}

/// A part of a type that has a name, with its type where it has one.
pub type EntryModel = (Seq<char>, Option<ComponentValType>);

pub open spec fn entries_of(entries: Seq<(String, Option<ComponentValType>)>) -> Seq<EntryModel> {
    entries.map_values(|e: (String, Option<ComponentValType>)| (e.0@, e.1))
}

/// What the types hold of one of them; none where it is not theirs.
pub uninterp spec fn defined_in(types: Types, t: ComponentValType) -> Option<ComponentDefinedType>;

/// The kind of a type.
pub uninterp spec fn kind_in(d: ComponentDefinedType) -> KindModel;

/// The parts of a type that have names: the fields of a record, the cases of a
/// variant, the names of flags and of an enumeration.
pub uninterp spec fn entries_in(d: ComponentDefinedType) -> Seq<EntryModel>;

/// `wasmparser::types::Types::get` on the identifier of a type: what the type is
/// defined as. A type of no parts is its own definition.
#[verifier::external_body]
fn defined(types: &Types, t: ComponentValType) -> (r: Option<ComponentDefinedType>)
    ensures
        r == defined_in(*types, t),
{
    match t {
        ComponentValType::Primitive(p) => Some(ComponentDefinedType::Primitive(p)),
        ComponentValType::Type(id) => types.get(id).cloned(),
    }
}

/// The variants of `wasmparser::types::ComponentDefinedType`, one for one, with the
/// types they hold without names. Of a handle, which resource it is for is left
/// out.
#[verifier::external_body]
fn kind(d: &ComponentDefinedType) -> (k: TypeKind)
    ensures
        k@ == kind_in(*d),
{
    match d {
        ComponentDefinedType::Primitive(p) => TypeKind::Plain(p.to_string()),
        ComponentDefinedType::Record(_) => TypeKind::Record,
        ComponentDefinedType::Variant(_) => TypeKind::Variant,
        ComponentDefinedType::List(t) => TypeKind::List(*t),
        ComponentDefinedType::Tuple(p) => TypeKind::Tuple(p.types.to_vec()),
        ComponentDefinedType::Flags(_) => TypeKind::Flags,
        ComponentDefinedType::Enum(_) => TypeKind::Enumeration,
        ComponentDefinedType::Option(t) => TypeKind::Maybe(*t),
        ComponentDefinedType::Result { ok, err } => TypeKind::Outcome(*ok, *err),
        ComponentDefinedType::Own(_) => TypeKind::Own,
        ComponentDefinedType::Borrow(_) => TypeKind::Borrow,
    }
}

/// What the variants of `wasmparser::types::ComponentDefinedType` hold under names,
/// in order, each with its type where it has one. Of a case, what it refines is
/// left out.
#[verifier::external_body]
fn entries(d: &ComponentDefinedType) -> (out: Vec<(String, Option<ComponentValType>)>)
    ensures
        entries_of(out@) == entries_in(*d),
{
    match d {
        ComponentDefinedType::Record(r) => r.fields.iter().map(|f| (f.0.to_string(), Some(*f.1))).collect(),
        ComponentDefinedType::Variant(v) => v.cases.iter().map(|c| (c.0.to_string(), c.1.ty)).collect(),
        ComponentDefinedType::Flags(names) => names.iter().map(|n| (n.to_string(), None)).collect(),
        ComponentDefinedType::Enum(names) => names.iter().map(|n| (n.to_string(), None)).collect(),
        _ => Vec::new(),
    }
}

/// A type, opened by one level.
pub enum TypeNode {
    /// A type that has no parts, by its name.
    Plain(String),
    Record(Vec<(String, Option<ComponentValType>)>),
    Variant(Vec<(String, Option<ComponentValType>)>),
    List(ComponentValType),
    Tuple(Vec<ComponentValType>),
    Flags(Vec<(String, Option<ComponentValType>)>),
    Enumeration(Vec<(String, Option<ComponentValType>)>),
    Maybe(ComponentValType),
    Outcome(Option<ComponentValType>, Option<ComponentValType>),
    Own,
    Borrow,
    /// A type of other types.
    Unknown,
}

/// A type, opened by one level, for contracts.
pub enum NodeModel {
    Plain(Seq<char>),
    Record(Seq<EntryModel>),
    Variant(Seq<EntryModel>),
    List(ComponentValType),
    Tuple(Seq<ComponentValType>),
    Flags(Seq<EntryModel>),
    Enumeration(Seq<EntryModel>),
    Maybe(ComponentValType),
    Outcome(Option<ComponentValType>, Option<ComponentValType>),
    Own,
    Borrow,
    Unknown,
}

impl View for TypeNode {
    type V = NodeModel;

    open spec fn view(&self) -> NodeModel {
        match *self {
            TypeNode::Plain(name) => NodeModel::Plain(name@),
            TypeNode::Record(fields) => NodeModel::Record(entries_of(fields@)),
            TypeNode::Variant(cases) => NodeModel::Variant(entries_of(cases@)),
            TypeNode::List(t) => NodeModel::List(t),
            TypeNode::Tuple(parts) => NodeModel::Tuple(parts@),
            TypeNode::Flags(names) => NodeModel::Flags(entries_of(names@)),
            TypeNode::Enumeration(names) => NodeModel::Enumeration(entries_of(names@)),
            TypeNode::Maybe(t) => NodeModel::Maybe(t),
            TypeNode::Outcome(ok, err) => NodeModel::Outcome(ok, err),
            TypeNode::Own => NodeModel::Own,
            TypeNode::Borrow => NodeModel::Borrow,
            TypeNode::Unknown => NodeModel::Unknown,
        }
    }
}

/// What the types hold of one of them, opened by one level.
pub open spec fn node_in(types: Types, t: ComponentValType) -> NodeModel {
    match defined_in(types, t) {
        None => NodeModel::Unknown,
        Some(d) => match kind_in(d) {
            KindModel::Plain(name) => NodeModel::Plain(name),
            KindModel::Record => NodeModel::Record(entries_in(d)),
            KindModel::Variant => NodeModel::Variant(entries_in(d)),
            KindModel::List(t) => NodeModel::List(t),
            KindModel::Tuple(parts) => NodeModel::Tuple(parts),
            KindModel::Flags => NodeModel::Flags(entries_in(d)),
            KindModel::Enumeration => NodeModel::Enumeration(entries_in(d)),
            KindModel::Maybe(t) => NodeModel::Maybe(t),
            KindModel::Outcome(ok, err) => NodeModel::Outcome(ok, err),
            KindModel::Own => NodeModel::Own,
            KindModel::Borrow => NodeModel::Borrow,
        },
    }
}

fn open_type(types: &Types, t: ComponentValType) -> (n: TypeNode)
    ensures
        n@ == node_in(*types, t),
{
    match defined(types, t) {
        None => TypeNode::Unknown,
        Some(d) => match kind(&d) {
            TypeKind::Plain(name) => TypeNode::Plain(name),
            TypeKind::Record => TypeNode::Record(entries(&d)),
            TypeKind::Variant => TypeNode::Variant(entries(&d)),
            TypeKind::List(t) => TypeNode::List(t),
            TypeKind::Tuple(parts) => TypeNode::Tuple(parts),
            TypeKind::Flags => TypeNode::Flags(entries(&d)),
            TypeKind::Enumeration => TypeNode::Enumeration(entries(&d)),
            TypeKind::Maybe(t) => TypeNode::Maybe(t),
            TypeKind::Outcome(ok, err) => TypeNode::Outcome(ok, err),
            TypeKind::Own => TypeNode::Own,
            TypeKind::Borrow => TypeNode::Borrow,
        },
    }
}

/// What the types hold of a function in an interface that the binary exports: the
/// types of its parameters and of its results; none where there is no such
/// function.
pub uninterp spec fn function_in(
    types: Types,
    interface: Seq<char>,
    function: Seq<char>,
) -> Option<(Seq<ComponentValType>, Seq<ComponentValType>)>;

/// The bytes are a valid binary, with every feature allowed.
pub uninterp spec fn is_valid_wasm(bytes: Seq<u8>) -> bool;

/// The records that the function of a stage takes and gives, by the types of the
/// binary; none where the binary has no such function.
pub uninterp spec fn wasm_signature(bytes: Seq<u8>) -> Option<SignatureModel>;

/// `wasmparser::Validator::validate_all`, on a validator that allows every
/// feature: whether it succeeds depends on the bytes alone, and so do the types
/// that it gives, apart from how they are numbered. Which bytes are valid, and
/// which types they have, is left unsaid.
#[verifier::external_body]
pub(crate) fn validated(bytes: &Vec<u8>) -> (r: Option<Types>)
    ensures
        r is Some <==> is_valid_wasm(bytes@),
        r matches Some(types) ==> signature_in(types) == wasm_signature(bytes@),
{
    wasmparser::Validator::new_with_features(wasmparser::WasmFeatures::all())
        .validate_all(bytes)
        .ok()
}

/// `wasmparser::types::Types::component_entity_type_of_export`, for an instance,
/// and the function of that name among its exports: the types of the parameters
/// and of the results, in order.
#[verifier::external_body]
fn function_types(types: &Types, interface: &str, function: &str) -> (r: Option<
    (Vec<ComponentValType>, Vec<ComponentValType>),
>)
    ensures
        match r {
            None => function_in(*types, interface@, function@) is None,
            Some((params, results)) => function_in(*types, interface@, function@) == Some(
                (params@, results@),
            ),
        },
{
    let instance = match types.component_entity_type_of_export(interface) {
        Some(ComponentEntityType::Instance(i)) => types.get(i)?,
        _ => return None,
    };
    let called = match instance.exports.get(function) {
        Some(ComponentEntityType::Func(f)) => types.get(*f)?,
        _ => return None,
    };
    let params = called.params.iter().map(|p| p.1).collect();
    Some((params, called.results.iter().map(|r| r.1).collect()))
}

/// A piece of a type in words: a word, or a type within it.
pub enum Piece {
    Words(String),
    Inner(ComponentValType),
}

/// A piece of a type in words, for contracts.
pub enum PieceModel {
    Words(Seq<char>),
    Inner(ComponentValType),
}

impl View for Piece {
    type V = PieceModel;

    open spec fn view(&self) -> PieceModel {
        match *self {
            Piece::Words(w) => PieceModel::Words(w@),
            Piece::Inner(t) => PieceModel::Inner(t),
        }
    }
}

pub open spec fn piece_models(pieces: Seq<Piece>) -> Seq<PieceModel> {
    pieces.map_values(|p: Piece| p@)
}

/// What goes before a part: nothing before the first one.
pub open spec fn joint(before: nat) -> PieceModel {
    PieceModel::Words(
        if before == 0 {
            ""@
        } else {
            ", "@
        },
    )
}

/// Types, one after the other.
pub open spec fn part_pieces(parts: Seq<ComponentValType>) -> Seq<PieceModel>
    decreases parts.len(),
{
    if parts.len() == 0 {
        Seq::empty()
    } else {
        part_pieces(parts.drop_last()).push(joint((parts.len() - 1) as nat)).push(
            PieceModel::Inner(parts.last()),
        )
    }
}

/// Parts with names, one after the other.
pub open spec fn entry_pieces(entries: Seq<EntryModel>) -> Seq<PieceModel>
    decreases entries.len(),
{
    if entries.len() == 0 {
        Seq::empty()
    } else {
        let named = entry_pieces(entries.drop_last()).push(
            joint((entries.len() - 1) as nat),
        ).push(PieceModel::Words(entries.last().0));
        match entries.last().1 {
            None => named,
            Some(t) => named.push(PieceModel::Words(": "@)).push(PieceModel::Inner(t)),
        }
    }
}

/// One side of a result.
pub open spec fn side_piece(side: Option<ComponentValType>) -> PieceModel {
    match side {
        None => PieceModel::Words("_"@),
        Some(t) => PieceModel::Inner(t),
    }
}

/// Pieces between two words.
pub open spec fn between(before: Seq<char>, inner: Seq<PieceModel>, after: Seq<char>) -> Seq<
    PieceModel,
> {
    seq![PieceModel::Words(before)] + inner + seq![PieceModel::Words(after)]
}

/// A type in pieces.
pub open spec fn node_pieces(node: NodeModel) -> Seq<PieceModel> {
    match node {
        NodeModel::Plain(name) => seq![PieceModel::Words(name)],
        NodeModel::Record(fields) => between("record {"@, entry_pieces(fields), "}"@),
        NodeModel::Variant(cases) => between("variant {"@, entry_pieces(cases), "}"@),
        NodeModel::List(t) => between("list<"@, seq![PieceModel::Inner(t)], ">"@),
        NodeModel::Tuple(parts) => between("tuple<"@, part_pieces(parts), ">"@),
        NodeModel::Flags(names) => between("flags {"@, entry_pieces(names), "}"@),
        NodeModel::Enumeration(names) => between("enum {"@, entry_pieces(names), "}"@),
        NodeModel::Maybe(t) => between("option<"@, seq![PieceModel::Inner(t)], ">"@),
        NodeModel::Outcome(ok, err) => between(
            "result<"@,
            seq![side_piece(ok), PieceModel::Words(", "@), side_piece(err)],
            ">"@,
        ),
        NodeModel::Own => seq![PieceModel::Words("own"@)],
        NodeModel::Borrow => seq![PieceModel::Words("borrow"@)],
        NodeModel::Unknown => seq![PieceModel::Words("unknown"@)],
    }
}

/// How deep types are told apart. Types are numbered in 32 bits and hold only types
/// that were defined before them, so none goes deeper.
pub const TYPE_DEPTH: usize = 0xffff_ffff;

/// A type in words, down to a depth.
pub open spec fn type_text(types: Types, t: ComponentValType, depth: nat) -> Seq<char>
    decreases depth, 0nat,
{
    if depth == 0 {
        "..."@
    } else {
        pieces_text(types, node_pieces(node_in(types, t)), (depth - 1) as nat)
    }
}

/// Pieces in words, one after the other.
pub open spec fn pieces_text(types: Types, pieces: Seq<PieceModel>, depth: nat) -> Seq<char>
    decreases depth, pieces.len() + 1,
{
    if pieces.len() == 0 {
        Seq::empty()
    } else {
        (match pieces[0] {
            PieceModel::Words(w) => w,
            PieceModel::Inner(t) => type_text(types, t, depth),
        }) + pieces_text(types, pieces.skip(1), depth)
    }
}

fn words(w: &str) -> (p: Piece)
    ensures
        p@ == PieceModel::Words(w@),
{
    Piece::Words(w.to_owned())
}

fn put_joint(out: &mut Vec<Piece>, before: usize)
    ensures
        piece_models(final(out)@) == piece_models(old(out)@).push(joint(before as nat)),
{
    let ghost was = out@;
    out.push(
        words(
            if before == 0 {
                ""
            } else {
                ", "
            },
        ),
    );
    assert(piece_models(out@) =~= piece_models(was).push(joint(before as nat)));
}

fn put_piece(out: &mut Vec<Piece>, p: Piece)
    ensures
        piece_models(final(out)@) == piece_models(old(out)@).push(p@),
{
    let ghost was = out@;
    let ghost m = p@;
    out.push(p);
    assert(piece_models(out@) =~= piece_models(was).push(m));
}

fn put_parts(out: &mut Vec<Piece>, parts: &Vec<ComponentValType>)
    ensures
        piece_models(final(out)@) == piece_models(old(out)@) + part_pieces(parts@),
{
    let ghost base = piece_models(out@);
    let mut i: usize = 0;
    assert(parts@.take(0) =~= Seq::<ComponentValType>::empty());
    assert(base + part_pieces(parts@.take(0)) =~= base);
    while i < parts.len()
        invariant
            i <= parts@.len(),
            piece_models(out@) == base + part_pieces(parts@.take(i as int)),
        decreases parts@.len() - i,
    {
        let ghost so_far = part_pieces(parts@.take(i as int));
        assert(parts@.take(i + 1).drop_last() =~= parts@.take(i as int));
        put_joint(out, i);
        put_piece(out, Piece::Inner(parts[i]));
        assert(piece_models(out@) =~= base + so_far.push(joint(i as nat)).push(
            PieceModel::Inner(parts@[i as int]),
        ));
        i = i + 1;
    }
    assert(parts@.take(i as int) =~= parts@);
}

fn put_entries(out: &mut Vec<Piece>, entries: &Vec<(String, Option<ComponentValType>)>)
    ensures
        piece_models(final(out)@) == piece_models(old(out)@) + entry_pieces(entries_of(entries@)),
{
    let ghost all = entries_of(entries@);
    let ghost base = piece_models(out@);
    let mut i: usize = 0;
    assert(all.take(0) =~= Seq::<EntryModel>::empty());
    assert(base + entry_pieces(all.take(0)) =~= base);
    while i < entries.len()
        invariant
            i <= entries@.len(),
            all == entries_of(entries@),
            piece_models(out@) == base + entry_pieces(all.take(i as int)),
        decreases entries@.len() - i,
    {
        let ghost so_far = entry_pieces(all.take(i as int));
        assert(all.take(i + 1).drop_last() =~= all.take(i as int));
        let e = &entries[i];
        assert(all.take(i + 1).last() == (e.0@, e.1));
        put_joint(out, i);
        put_piece(out, words(e.0.as_str()));
        let ghost named = so_far.push(joint(i as nat)).push(PieceModel::Words(e.0@));
        assert(piece_models(out@) =~= base + named);
        if let Some(t) = e.1 {
            put_piece(out, words(": "));
            put_piece(out, Piece::Inner(t));
            assert(piece_models(out@) =~= base + named.push(PieceModel::Words(": "@)).push(
                PieceModel::Inner(t),
            ));
        }
        i = i + 1;
    }
    assert(all.take(i as int) =~= all);
}

fn put_side(out: &mut Vec<Piece>, side: Option<ComponentValType>)
    ensures
        piece_models(final(out)@) == piece_models(old(out)@).push(side_piece(side)),
{
    match side {
        None => put_piece(out, words("_")),
        Some(t) => put_piece(out, Piece::Inner(t)),
    }
}

/// A type in pieces.
fn take_apart(node: TypeNode) -> (out: Vec<Piece>)
    ensures
        piece_models(out@) == node_pieces(node@),
{
    let mut out: Vec<Piece> = Vec::new();
    assert(piece_models(out@) =~= Seq::<PieceModel>::empty());
    let ghost want = node_pieces(node@);
    match node {
        TypeNode::Plain(name) => put_piece(&mut out, Piece::Words(name)),
        TypeNode::Record(fields) => {
            put_piece(&mut out, words("record {"));
            put_entries(&mut out, &fields);
            put_piece(&mut out, words("}"));
        },
        TypeNode::Variant(cases) => {
            put_piece(&mut out, words("variant {"));
            put_entries(&mut out, &cases);
            put_piece(&mut out, words("}"));
        },
        TypeNode::List(t) => {
            put_piece(&mut out, words("list<"));
            put_piece(&mut out, Piece::Inner(t));
            put_piece(&mut out, words(">"));
        },
        TypeNode::Tuple(parts) => {
            put_piece(&mut out, words("tuple<"));
            put_parts(&mut out, &parts);
            put_piece(&mut out, words(">"));
        },
        TypeNode::Flags(names) => {
            put_piece(&mut out, words("flags {"));
            put_entries(&mut out, &names);
            put_piece(&mut out, words("}"));
        },
        TypeNode::Enumeration(names) => {
            put_piece(&mut out, words("enum {"));
            put_entries(&mut out, &names);
            put_piece(&mut out, words("}"));
        },
        TypeNode::Maybe(t) => {
            put_piece(&mut out, words("option<"));
            put_piece(&mut out, Piece::Inner(t));
            put_piece(&mut out, words(">"));
        },
        TypeNode::Outcome(ok, err) => {
            put_piece(&mut out, words("result<"));
            put_side(&mut out, ok);
            put_piece(&mut out, words(", "));
            put_side(&mut out, err);
            put_piece(&mut out, words(">"));
        },
        TypeNode::Own => put_piece(&mut out, words("own")),
        TypeNode::Borrow => put_piece(&mut out, words("borrow")),
        TypeNode::Unknown => put_piece(&mut out, words("unknown")),
    }
    assert(piece_models(out@) =~= want);
    out
}

/// A piece that is still to be told, with the depth down to which it is told.
spec fn left_text(types: Types, p: (Piece, usize)) -> Seq<char> {
    match p.0@ {
        PieceModel::Words(w) => w,
        PieceModel::Inner(t) => type_text(types, t, p.1 as nat),
    }
}

/// The pieces that are still to be told, the last one first.
spec fn stack_text(types: Types, stack: Seq<(Piece, usize)>) -> Seq<char>
    decreases stack.len(),
{
    if stack.len() == 0 {
        Seq::empty()
    } else {
        left_text(types, stack.last()) + stack_text(types, stack.drop_last())
    }
}

/// How many steps it takes to tell a type.
spec fn type_steps(types: Types, t: ComponentValType, depth: nat) -> nat
    decreases depth, 0nat,
{
    if depth == 0 {
        1
    } else {
        1 + pieces_steps(types, node_pieces(node_in(types, t)), (depth - 1) as nat)
    }
}

spec fn pieces_steps(types: Types, pieces: Seq<PieceModel>, depth: nat) -> nat
    decreases depth, pieces.len() + 1,
{
    if pieces.len() == 0 {
        0
    } else {
        (match pieces[0] {
            PieceModel::Words(_) => 1,
            PieceModel::Inner(t) => type_steps(types, t, depth),
        }) + pieces_steps(types, pieces.skip(1), depth)
    }
}

spec fn left_steps(types: Types, p: (Piece, usize)) -> nat {
    match p.0@ {
        PieceModel::Words(_) => 1,
        PieceModel::Inner(t) => type_steps(types, t, p.1 as nat),
    }
}

spec fn stack_steps(types: Types, stack: Seq<(Piece, usize)>) -> nat
    decreases stack.len(),
{
    if stack.len() == 0 {
        0
    } else {
        left_steps(types, stack.last()) + stack_steps(types, stack.drop_last())
    }
}

fn push_pieces(
    types: &Types,
    stack: &mut Vec<(Piece, usize)>,
    pieces: Vec<Piece>,
    depth: usize,
)
    ensures
        stack_text(*types, final(stack)@) == pieces_text(
            *types,
            piece_models(pieces@),
            depth as nat,
        ) + stack_text(*types, old(stack)@),
        stack_steps(*types, final(stack)@) == pieces_steps(
            *types,
            piece_models(pieces@),
            depth as nat,
        ) + stack_steps(*types, old(stack)@),
{
    let ghost all = piece_models(pieces@);
    let ghost base = stack@;
    let mut left = pieces;
    assert(all.skip(all.len() as int) =~= Seq::<PieceModel>::empty());
    assert(stack_text(*types, base) =~= pieces_text(
        *types,
        all.skip(left@.len() as int),
        depth as nat,
    ) + stack_text(*types, base));
    while left.len() > 0
        invariant
            left@.len() <= all.len(),
            forall|k: int| 0 <= k < left@.len() ==> (#[trigger] left@[k])@ == all[k],
            stack_text(*types, stack@) == pieces_text(
                *types,
                all.skip(left@.len() as int),
                depth as nat,
            ) + stack_text(*types, base),
            stack_steps(*types, stack@) == pieces_steps(
                *types,
                all.skip(left@.len() as int),
                depth as nat,
            ) + stack_steps(*types, base),
        decreases left@.len(),
    {
        let ghost n = left@.len() as int - 1;
        let ghost was = stack@;
        if let Some(p) = left.pop() {
            assert(p@ == all[n]);
            stack.push((p, depth));
            assert(stack@.drop_last() =~= was);
            assert(all.skip(n).skip(1) =~= all.skip(n + 1));
            assert(all.skip(n)[0] == all[n]);
            assert(stack_text(*types, stack@) =~= pieces_text(*types, all.skip(n), depth as nat)
                + stack_text(*types, base));
        }
    }
    assert(all.skip(0) =~= all);
}

/// A type in words.
fn tell_type(types: &Types, t: ComponentValType, depth: usize) -> (out: String)
    ensures
        out@ == type_text(*types, t, depth as nat),
{
    let ghost want = type_text(*types, t, depth as nat);
    let mut out = String::new();
    let mut stack: Vec<(Piece, usize)> = vec![(Piece::Inner(t), depth)];
    assert(stack@ =~= seq![(Piece::Inner(t), depth)]);
    assert(stack@.drop_last() =~= Seq::<(Piece, usize)>::empty());
    assert(stack_text(*types, stack@.drop_last()) =~= Seq::<char>::empty());
    assert(want =~= out@ + stack_text(*types, stack@));
    while stack.len() > 0
        invariant
            want == out@ + stack_text(*types, stack@),
        decreases stack_steps(*types, stack@),
    {
        let ghost was = stack@;
        let ghost before = out@;
        if let Some((piece, depth)) = stack.pop() {
            assert(stack@ =~= was.drop_last());
            assert(was.last() == (piece, depth));
            match piece {
                Piece::Words(w) => {
                    out.append(w.as_str());
                    assert(out@ + stack_text(*types, stack@) =~= before + stack_text(*types, was));
                },
                Piece::Inner(t) => {
                    if depth == 0 {
                        out.append("...");
                        assert(out@ + stack_text(*types, stack@) =~= before + stack_text(
                            *types,
                            was,
                        ));
                    } else {
                        let pieces = take_apart(open_type(types, t));
                        push_pieces(types, &mut stack, pieces, depth - 1);
                    }
                },
            }
        }
    }
    assert(out@ + stack_text(*types, stack@) =~= out@);
    out
}

/// The fields of a record: the name, the type, and whether it may be absent.
#[derive(Debug, Clone)]
pub struct RecordInfo {
    pub fields: Vec<(String, String, bool)>,
}

/// A field, for contracts.
pub type FieldModel = (Seq<char>, Seq<char>, bool);

/// The fields of a record, for contracts.
pub type RecordModel = Seq<FieldModel>;

/// The record that is taken and the one that is given, where they are records.
pub type SignatureModel = (Option<RecordModel>, Option<RecordModel>);

pub open spec fn field_of(f: (String, String, bool)) -> FieldModel {
    (f.0@, f.1@, f.2)
}

impl View for RecordInfo {
    type V = RecordModel;

    open spec fn view(&self) -> RecordModel {
        self.fields@.map_values(|f: (String, String, bool)| field_of(f))
    }
}

pub open spec fn opt_record(r: Option<RecordInfo>) -> Option<RecordModel> {
    match r {
        None => None,
        Some(r) => Some(r@),
    }
}

/// A field of a record. One that may be absent is told by what it is when it is
/// there.
pub open spec fn field_in(types: Types, f: EntryModel) -> FieldModel {
    match f.1 {
        None => (f.0, "_"@, false),
        Some(t) => match node_in(types, t) {
            NodeModel::Maybe(inner) => (f.0, type_text(types, inner, TYPE_DEPTH as nat), true),
            _ => (f.0, type_text(types, t, TYPE_DEPTH as nat), false),
        },
    }
}

/// The fields of a type that is a record.
pub open spec fn record_in(types: Types, t: ComponentValType) -> Option<RecordModel> {
    match node_in(types, t) {
        NodeModel::Record(fields) => Some(
            fields.map_values(|f: EntryModel| field_in(types, f)),
        ),
        _ => None,
    }
}

/// The record that is taken: the first parameter.
pub open spec fn taken_in(types: Types, params: Seq<ComponentValType>) -> Option<RecordModel> {
    if params.len() == 0 {
        None
    } else {
        record_in(types, params[0])
    }
}

/// The record that is given: the first result, or the first part of it where it
/// is a tuple.
pub open spec fn given_in(types: Types, results: Seq<ComponentValType>) -> Option<RecordModel> {
    if results.len() == 0 {
        None
    } else {
        match node_in(types, results[0]) {
            NodeModel::Tuple(parts) => if parts.len() == 0 {
                None
            } else {
                record_in(types, parts[0])
            },
            _ => record_in(types, results[0]),
        }
    }
}

/// The interface of a stage, with its version and without.
pub const PROCESS: &'static str = "epico:pipeline/process@0.1.0";

pub const PROCESS_PLAIN: &'static str = "epico:pipeline/process";

/// The function of a stage.
pub const PROCESS_EVENT: &'static str = "process-event";

/// The function by which a stage is called.
pub open spec fn process_in(types: Types) -> Option<(Seq<ComponentValType>, Seq<ComponentValType>)> {
    match function_in(types, PROCESS@, PROCESS_EVENT@) {
        Some(f) => Some(f),
        None => function_in(types, PROCESS_PLAIN@, PROCESS_EVENT@),
    }
}

/// What the function of a stage takes and gives.
pub open spec fn signature_in(types: Types) -> Option<SignatureModel> {
    match process_in(types) {
        None => None,
        Some((params, results)) => Some((taken_in(types, params), given_in(types, results))),
    }
}

/// What the function of a stage takes and gives.
#[derive(Debug, Clone)]
pub struct Signature {
    pub takes: Option<RecordInfo>,
    pub gives: Option<RecordInfo>,
}

pub open spec fn opt_signature(s: Option<Signature>) -> Option<SignatureModel> {
    match s {
        None => None,
        Some(s) => Some((opt_record(s.takes), opt_record(s.gives))),
    }
}

fn read_record(types: &Types, t: ComponentValType) -> (r: Option<RecordInfo>)
    ensures
        opt_record(r) == record_in(*types, t),
{
    match open_type(types, t) {
        TypeNode::Record(entries) => {
            let ghost all = entries_of(entries@);
            let ghost want = all.map_values(|f: EntryModel| field_in(*types, f));
            let mut fields: Vec<(String, String, bool)> = Vec::new();
            let mut i: usize = 0;
            while i < entries.len()
                invariant
                    i <= entries@.len(),
                    fields@.len() == i,
                    all == entries_of(entries@),
                    want == all.map_values(|f: EntryModel| field_in(*types, f)),
                    forall|k: int| 0 <= k < i ==> field_of(#[trigger] fields@[k]) == want[k],
                decreases entries@.len() - i,
            {
                assert(all[i as int] == (entries@[i as int].0@, entries@[i as int].1));
                assert(want[i as int] == field_in(*types, all[i as int]));
                let name = entries[i].0.clone();
                match entries[i].1 {
                    None => {
                        fields.push((name, "_".to_owned(), false));
                    },
                    Some(t) => match open_type(types, t) {
                        TypeNode::Maybe(inner) => {
                            fields.push((name, tell_type(types, inner, TYPE_DEPTH), true));
                        },
                        _ => {
                            fields.push((name, tell_type(types, t, TYPE_DEPTH), false));
                        },
                    },
                }
                i = i + 1;
            }
            let r = RecordInfo { fields };
            assert(r@ =~= want);
            Some(r)
        },
        _ => None,
    }
}

/// Reads what the function of a stage takes and gives off the types of its
/// component; none where there is no such function.
pub fn read_signature(types: &Types) -> (r: Option<Signature>)
    ensures
        opt_signature(r) == signature_in(*types),
{
    let (params, results) = match function_types(types, PROCESS, PROCESS_EVENT) {
        Some(f) => f,
        None => match function_types(types, PROCESS_PLAIN, PROCESS_EVENT) {
            Some(f) => f,
            None => {
                return None;
            },
        },
    };
    let takes = if params.len() == 0 {
        None
    } else {
        read_record(types, params[0])
    };
    let gives = if results.len() == 0 {
        None
    } else {
        match open_type(types, results[0]) {
            TypeNode::Tuple(parts) => if parts.len() == 0 {
                None
            } else {
                read_record(types, parts[0])
            },
            _ => read_record(types, results[0]),
        }
    };
    Some(Signature { takes, gives })
}

} // verus!
