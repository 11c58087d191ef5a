//! Whether the components of a pipeline fit together, before any event goes
//! through them.

use vstd::prelude::*;
use crate::numtext::{decimal, decimal_text, owned_views};
use crate::signature::{
    field_of, is_valid_wasm, opt_record, read_signature, validated, wasm_signature, FieldModel,
    RecordInfo, RecordModel, Signature, SignatureModel, PROCESS, PROCESS_PLAIN,
};
use crate::text::{quoted, quoted_text, same};

verus! {

/// What a stage takes and gives, as far as it is known.
#[derive(Debug, Clone)]
pub struct StageSignature {
    pub stage_name: String,
    pub wasm_path: String,
    pub input: Option<RecordInfo>,
    pub output: Option<RecordInfo>,
}

/// What a stage takes and gives, for contracts.
pub struct SigModel {
    pub name: Seq<char>,
    pub input: Option<RecordModel>,
    pub output: Option<RecordModel>,
}

impl View for StageSignature {
    type V = SigModel;

    open spec fn view(&self) -> SigModel {
        SigModel {
            name: self.stage_name@,
            input: opt_record(self.input),
            output: opt_record(self.output),
        }
    }
}

pub open spec fn sig_views(v: Seq<StageSignature>) -> Seq<SigModel> {
    v.map_values(|s: StageSignature| s@)
}

/// One part of a WebAssembly binary.
#[derive(Debug)]
pub enum Part {
    /// The head of a component (`true`) or of a core module.
    Head(bool),
    /// The names that a component exports; none for one that cannot be read.
    Exports(Vec<Option<String>>),
    Other,
    /// The binary cannot be read on from here.
    Broken,
}

/// One part of a WebAssembly binary, for contracts.
pub enum PartModel {
    Head(bool),
    Exports(Seq<Option<Seq<char>>>),
    Other,
    Broken,
}

pub open spec fn opt_texts(v: Seq<Option<String>>) -> Seq<Option<Seq<char>>> {
    v.map_values(
        |n: Option<String>|
            match n {
                None => None,
                Some(s) => Some(s@),
            },
    )
}

impl View for Part {
    type V = PartModel;

    open spec fn view(&self) -> PartModel {
        match *self {
            Part::Head(c) => PartModel::Head(c),
            Part::Exports(names) => PartModel::Exports(opt_texts(names@)),
            Part::Other => PartModel::Other,
            Part::Broken => PartModel::Broken,
        }
    }
}

pub open spec fn part_views(v: Seq<Part>) -> Seq<PartModel> {
    v.map_values(|p: Part| p@)
}

/// The parts of a binary, those of the modules and components inside it among
/// them.
pub uninterp spec fn wasm_parts(bytes: Seq<u8>) -> Seq<PartModel>;

/// `wasmparser::Parser::parse_all`: the parts that it yields, one for one, with
/// of each only what is read here. They depend on the bytes alone.
#[verifier::external_body]
fn parse_parts(bytes: &Vec<u8>) -> (out: Vec<Part>)
    ensures
        part_views(out@) == wasm_parts(bytes@),
{
    let name = |e: wasmparser::ComponentExport| e.name.0.to_owned();
    wasmparser::Parser::new(0).parse_all(bytes).map(|p| match p {
        Ok(wasmparser::Payload::Version { encoding: wasmparser::Encoding::Component, .. }) => Part::Head(true),
        Ok(wasmparser::Payload::Version { .. }) => Part::Head(false),
        Ok(wasmparser::Payload::ComponentExportSection(r)) => Part::Exports(r.into_iter().map(|e| e.ok().map(name)).collect()),
        Ok(_) => Part::Other,
        Err(_) => Part::Broken,
    }).collect()
}

/// Why a stage's component is refused.
#[derive(Clone, Copy, Debug, PartialEq, Eq, Structural)]
pub enum ComponentFault {
    /// There is no file to read.
    Unreadable,
    NotWasm,
    /// The binary cannot be read to its end.
    BrokenBinary,
    /// An export cannot be read.
    BrokenExport,
    /// It is a core module and not a component.
    CoreModule,
    /// It does not export the interface of a stage.
    NoProcess,
    /// The interface that it exports has not the function of a stage.
    NoFunction,
}

/// An export by which a stage is called.
pub open spec fn is_process(name: Seq<char>) -> bool {
    name == PROCESS@ || name == PROCESS_PLAIN@
}

/// An export that cannot be read is among the names.
pub open spec fn has_broken_name(names: Seq<Option<Seq<char>>>) -> bool {
    exists|i: int| 0 <= i < names.len() && (#[trigger] names[i]) is None
}

/// The interface of a stage is among the names.
pub open spec fn has_process(names: Seq<Option<Seq<char>>>) -> bool {
    exists|i: int| 0 <= i < names.len() && (#[trigger] names[i]) is Some && is_process(names[i]->0)
}

/// A part stops the reading.
pub open spec fn stops(p: PartModel) -> bool {
    p is Broken || (p matches PartModel::Exports(names) && has_broken_name(names))
}

/// The first part that stops the reading is at `i`.
pub open spec fn first_stop(parts: Seq<PartModel>, i: int) -> bool {
    &&& 0 <= i < parts.len()
    &&& stops(parts[i])
    &&& forall|k: int| 0 <= k < i ==> !stops(#[trigger] parts[k])
}

pub open spec fn any_component(parts: Seq<PartModel>) -> bool {
    exists|i: int| 0 <= i < parts.len() && (#[trigger] parts[i]) == PartModel::Head(true)
}

pub open spec fn any_process(parts: Seq<PartModel>) -> bool {
    exists|i: int|
        0 <= i < parts.len() && (#[trigger] parts[i] matches PartModel::Exports(names)
            && has_process(names))
}

/// The fault of a binary, if it has one: it is no valid binary, it cannot be
/// read, it is no component, it has not the interface, or not the function in it;
/// the first of these.
pub open spec fn fault_in(valid: bool, parts: Seq<PartModel>, callable: bool) -> Option<
    ComponentFault,
> {
    if !valid {
        Some(ComponentFault::NotWasm)
    } else if exists|i: int| first_stop(parts, i) {
        if parts[choose|i: int| first_stop(parts, i)] is Broken {
            Some(ComponentFault::BrokenBinary)
        } else {
            Some(ComponentFault::BrokenExport)
        }
    } else if !any_component(parts) {
        Some(ComponentFault::CoreModule)
    } else if !any_process(parts) {
        Some(ComponentFault::NoProcess)
    } else if !callable {
        Some(ComponentFault::NoFunction)
    } else {
        None
    }
}

/// The names of one section: whether one cannot be read, and whether the
/// interface is among them.
fn judge_names(names: &Vec<Option<String>>) -> (r: (bool, bool))
    ensures
        r.0 == has_broken_name(opt_texts(names@)),
        r.1 == has_process(opt_texts(names@)),
{
    let ghost all = opt_texts(names@);
    let mut broken = false;
    let mut process = false;
    let mut i: usize = 0;
    while i < names.len()
        invariant
            i <= names@.len(),
            all == opt_texts(names@),
            broken == exists|k: int| 0 <= k < i && (#[trigger] all[k]) is None,
            process == exists|k: int|
                0 <= k < i && (#[trigger] all[k]) is Some && is_process(all[k]->0),
        decreases names@.len() - i,
    {
        match &names[i] {
            None => {
                assert(all[i as int] is None);
                broken = true;
            },
            Some(n) => {
                assert(all[i as int] == Some(n@));
                if same(n.as_str(), PROCESS) || same(n.as_str(), PROCESS_PLAIN) {
                    process = true;
                }
            },
        }
        i = i + 1;
    }
    (broken, process)
}

/// The fault of a binary, from whether it is valid, from its parts, and from
/// whether it has the function of a stage.
pub fn judge_component(valid: bool, parts: &Vec<Part>, callable: bool) -> (r: Option<
    ComponentFault,
>)
    ensures
        r == fault_in(valid, part_views(parts@), callable),
{
    if !valid {
        return Some(ComponentFault::NotWasm);
    }
    let ghost all = part_views(parts@);
    let mut component = false;
    let mut process = false;
    let mut i: usize = 0;
    while i < parts.len()
        invariant
            valid,
            i <= parts@.len(),
            all == part_views(parts@),
            forall|k: int| 0 <= k < i ==> !stops(#[trigger] all[k]),
            component == exists|k: int| 0 <= k < i && (#[trigger] all[k]) == PartModel::Head(true),
            process == exists|k: int|
                0 <= k < i && (#[trigger] all[k] matches PartModel::Exports(names) && has_process(
                    names,
                )),
        decreases parts@.len() - i,
    {
        assert(all[i as int] == parts@[i as int]@);
        match &parts[i] {
            Part::Head(c) => {
                if *c {
                    component = true;
                }
            },
            Part::Exports(names) => {
                let (bad, good) = judge_names(names);
                if bad {
                    proof {
                        lemma_first_stop(all, i as int);
                    }
                    return Some(ComponentFault::BrokenExport);
                }
                if good {
                    process = true;
                }
            },
            Part::Other => {},
            Part::Broken => {
                proof {
                    lemma_first_stop(all, i as int);
                }
                return Some(ComponentFault::BrokenBinary);
            },
        }
        i = i + 1;
    }
    if !component {
        return Some(ComponentFault::CoreModule);
    }
    if !process {
        return Some(ComponentFault::NoProcess);
    }
    if !callable {
        return Some(ComponentFault::NoFunction);
    }
    None
}

proof fn lemma_first_stop(parts: Seq<PartModel>, i: int)
    requires
        0 <= i < parts.len(),
        stops(parts[i]),
        forall|k: int| 0 <= k < i ==> !stops(#[trigger] parts[k]),
    ensures
        first_stop(parts, i),
        (choose|c: int| first_stop(parts, c)) == i,
{
    assert(first_stop(parts, i));
    let c = choose|c: int| first_stop(parts, c);
    assert(first_stop(parts, c));
    if c < i {
        assert(!stops(parts[c]));
    } else if i < c {
        assert(!stops(parts[i]));
    }
}

/// The fault of a stage's file, if it has one.
pub open spec fn file_fault(file: Option<Seq<u8>>) -> Option<ComponentFault> {
    match file {
        None => Some(ComponentFault::Unreadable),
        Some(bytes) => fault_in(
            is_valid_wasm(bytes),
            wasm_parts(bytes),
            wasm_signature(bytes) is Some,
        ),
    }
}

pub open spec fn opt_bytes(file: Option<Vec<u8>>) -> Option<Seq<u8>> {
    match file {
        None => None,
        Some(b) => Some(b@),
    }
}

/// The records that the function of a stage takes and gives.
pub open spec fn wasm_records(bytes: Seq<u8>) -> SignatureModel {
    match wasm_signature(bytes) {
        Some(s) => s,
        None => (None, None),
    }
}

/// What is found of a stage in the file of its component.
pub open spec fn sig_found(name: Seq<char>, file: Option<Seq<u8>>) -> SigModel {
    match file {
        None => SigModel { name, input: None, output: None },
        Some(bytes) => SigModel {
            name,
            input: wasm_records(bytes).0,
            output: wasm_records(bytes).1,
        },
    }
}

/// Looks into the component of a stage, for the records that it takes and gives.
fn introspect_component(stage_name: &String, wasm_path: &String, file: &Option<Vec<u8>>) -> (r:
    Result<StageSignature, ComponentFault>)
    ensures
        match r {
            Err(f) => file_fault(opt_bytes(*file)) == Some(f),
            Ok(sig) => {
                &&& file_fault(opt_bytes(*file)) is None
                &&& sig.wasm_path@ == wasm_path@
                &&& sig@ == sig_found(stage_name@, opt_bytes(*file))
            },
        },
{
    match file {
        None => Err(ComponentFault::Unreadable),
        Some(bytes) => {
            let types = match validated(bytes) {
                None => {
                    return Err(ComponentFault::NotWasm);
                },
                Some(types) => types,
            };
            let parts = parse_parts(bytes);
            let found = read_signature(&types);
            match judge_component(true, &parts, found.is_some()) {
                Some(f) => Err(f),
                None => {
                    let (input, output) = match found {
                        Some(Signature { takes, gives }) => (takes, gives),
                        None => (None, None),
                    };
                    Ok(
                        StageSignature {
                            stage_name: stage_name.clone(),
                            wasm_path: wasm_path.clone(),
                            input,
                            output,
                        },
                    )
                },
            }
        },
    }
}

/// How a field that is taken fits those that are given.
#[derive(Clone, Copy, Debug, PartialEq, Eq, Structural)]
pub enum FieldFit {
    Fits,
    /// It is given with another type.
    Differs,
    /// It is not given, and may not be absent.
    Missing,
}

/// The type of the field of that name, the last where there are several.
pub open spec fn type_given(fields: RecordModel, name: Seq<char>) -> Option<Seq<char>>
    decreases fields.len(),
{
    if fields.len() == 0 {
        None
    } else if fields.last().0 == name {
        Some(fields.last().1)
    } else {
        type_given(fields.drop_last(), name)
    }
}

/// How a field fits.
pub open spec fn field_fit(given: RecordModel, f: FieldModel) -> FieldFit {
    match type_given(given, f.0) {
        Some(t) => if t == f.1 {
            FieldFit::Fits
        } else {
            FieldFit::Differs
        },
        None => if f.2 {
            FieldFit::Fits
        } else {
            FieldFit::Missing
        },
    }
}

/// It is known what the first stage of a pair gives and what the second takes.
pub open spec fn is_known_pair(sigs: Seq<SigModel>, p: (usize, usize)) -> bool {
    sigs[p.0 as int].output is Some && sigs[p.1 as int].input is Some
}

/// How the field `k` that the second stage of a pair takes fits what the first
/// gives.
pub open spec fn pair_fit(sigs: Seq<SigModel>, p: (usize, usize), k: int) -> FieldFit {
    field_fit(sigs[p.0 as int].output->0, sigs[p.1 as int].input->0[k])
}

/// All that the second stage of a pair takes fits what the first gives, as far as
/// both are known.
pub open spec fn pair_fits(sigs: Seq<SigModel>, p: (usize, usize)) -> bool {
    is_known_pair(sigs, p) ==> forall|k: int|
        0 <= k < sigs[p.1 as int].input->0.len() ==> #[trigger] pair_fit(sigs, p, k)
            == FieldFit::Fits
}

/// The pairs are of stages that there are.
pub open spec fn are_pairs(pairs: Seq<(usize, usize)>, n: nat) -> bool {
    forall|i: int|
        0 <= i < pairs.len() ==> (#[trigger] pairs[i]).0 < n && pairs[i].1 < n
}

/// Each stage with the next one.
pub open spec fn consecutive(n: nat) -> Seq<(usize, usize)> {
    Seq::new(
        if n == 0 {
            0
        } else {
            (n - 1) as nat
        },
        |i: int| (i as usize, (i + 1) as usize),
    )
}

/// The lines on the pairs of which both sides are known.
pub open spec fn pair_lines(sigs: Seq<SigModel>, pairs: Seq<(usize, usize)>) -> Seq<Seq<char>>
    decreases pairs.len(),
{
    if pairs.len() == 0 {
        Seq::empty()
    } else {
        let rest = pair_lines(sigs, pairs.drop_last());
        let p = pairs.last();
        if is_known_pair(sigs, p) {
            rest.push(
                "["@ + sigs[p.0 as int].name + " -> "@ + sigs[p.1 as int].name
                    + "] types compatible"@,
            )
        } else {
            rest
        }
    }
}

/// A field that does not fit: of the pair at that place, the field at that place
/// of what the second stage takes.
#[derive(Debug)]
pub struct FieldError {
    pub pair: usize,
    pub field: usize,
    /// The stage that gives, and the one that takes.
    pub from: String,
    pub to: String,
    pub name: String,
    /// The type with which the field is taken.
    pub taken: String,
    /// The type with which it is given, where it is given at all.
    pub given: Option<String>,
}

pub open spec fn opt_text(t: Option<String>) -> Option<Seq<char>> {
    match t {
        None => None,
        Some(t) => Some(t@),
    }
}

impl FieldError {
    /// The error is of the first field that does not fit in the first pair that
    /// does not.
    pub open spec fn is_first_misfit(
        &self,
        sigs: Seq<SigModel>,
        pairs: Seq<(usize, usize)>,
    ) -> bool {
        let p = pairs[self.pair as int];
        let f = sigs[p.1 as int].input->0[self.field as int];
        &&& self.pair < pairs.len()
        &&& is_known_pair(sigs, p)
        &&& self.field < sigs[p.1 as int].input->0.len()
        &&& forall|i: int| 0 <= i < self.pair ==> pair_fits(sigs, #[trigger] pairs[i])
        &&& forall|k: int|
            0 <= k < self.field ==> #[trigger] pair_fit(sigs, p, k) == FieldFit::Fits
        &&& pair_fit(sigs, p, self.field as int) != FieldFit::Fits
        &&& self.from@ == sigs[p.0 as int].name
        &&& self.to@ == sigs[p.1 as int].name
        &&& self.name@ == f.0
        &&& self.taken@ == f.1
        &&& opt_text(self.given) == type_given(sigs[p.0 as int].output->0, f.0)
    }
}

fn find_type(record: &RecordInfo, name: &str) -> (r: Option<String>)
    ensures
        opt_text(r) == type_given(record@, name@),
{
    let fields = &record.fields;
    let ghost all = record@;
    let mut i: usize = fields.len();
    assert(all.take(i as int) =~= all);
    while i > 0
        invariant
            i <= fields@.len(),
            *fields == record.fields,
            all == record@,
            type_given(all.take(i as int), name@) == type_given(all, name@),
        decreases i,
    {
        assert(all.take(i as int).drop_last() =~= all.take(i - 1));
        assert(all[i - 1] == field_of(fields@[i - 1]));
        if same(fields[i - 1].0.as_str(), name) {
            return Some(fields[i - 1].1.clone());
        }
        i = i - 1;
    }
    None
}

/// Holds what the second stage of each pair takes against what the first gives.
pub fn check_pairs(sigs: &Vec<StageSignature>, pairs: &Vec<(usize, usize)>) -> (r: Result<
    Vec<String>,
    FieldError,
>)
    requires
        are_pairs(pairs@, sigs@.len()),
    ensures
        match r {
            Ok(lines) => {
                &&& forall|i: int|
                    0 <= i < pairs@.len() ==> pair_fits(sig_views(sigs@), #[trigger] pairs@[i])
                &&& owned_views(lines@) == pair_lines(sig_views(sigs@), pairs@)
            },
            Err(e) => e.is_first_misfit(sig_views(sigs@), pairs@),
        },
{
    let ghost known = sig_views(sigs@);
    let mut lines: Vec<String> = Vec::new();
    assert(pairs@.take(0) =~= Seq::<(usize, usize)>::empty());
    assert(owned_views(lines@) =~= pair_lines(known, pairs@.take(0)));
    let mut i: usize = 0;
    while i < pairs.len()
        invariant
            i <= pairs@.len(),
            known == sig_views(sigs@),
            are_pairs(pairs@, sigs@.len()),
            forall|j: int| 0 <= j < i ==> pair_fits(known, #[trigger] pairs@[j]),
            owned_views(lines@) == pair_lines(known, pairs@.take(i as int)),
        decreases pairs@.len() - i,
    {
        let p = pairs[i];
        assert(pairs@.take(i + 1).drop_last() =~= pairs@.take(i as int));
        let from = &sigs[p.0];
        let to = &sigs[p.1];
        assert(known[p.0 as int] == from@);
        assert(known[p.1 as int] == to@);
        if let (Some(gives), Some(takes)) = (&from.output, &to.input) {
            assert(is_known_pair(known, p));
            let mut k: usize = 0;
            while k < takes.fields.len()
                invariant
                    i < pairs@.len(),
                    p == pairs@[i as int],
                    known == sig_views(sigs@),
                    known[p.0 as int] == from@,
                    known[p.1 as int] == to@,
                    k <= takes.fields@.len(),
                    is_known_pair(known, p),
                    gives@ == known[p.0 as int].output->0,
                    takes@ == known[p.1 as int].input->0,
                    forall|j: int| 0 <= j < i ==> pair_fits(known, #[trigger] pairs@[j]),
                    forall|j: int|
                        0 <= j < k ==> #[trigger] pair_fit(known, p, j) == FieldFit::Fits,
                decreases takes.fields@.len() - k,
            {
                let f = &takes.fields[k];
                assert(takes@[k as int] == field_of(*f));
                assert(pair_fit(known, p, k as int) == field_fit(gives@, field_of(*f)));
                let given = find_type(gives, f.0.as_str());
                let fits = match &given {
                    Some(t) => same(t.as_str(), f.1.as_str()),
                    None => f.2,
                };
                if !fits {
                    return Err(
                        FieldError {
                            pair: i,
                            field: k,
                            from: from.stage_name.clone(),
                            to: to.stage_name.clone(),
                            name: f.0.clone(),
                            taken: f.1.clone(),
                            given,
                        },
                    );
                }
                k = k + 1;
            }
            assert(pair_fits(known, p));
            let mut line = "[".to_owned();
            line.append(from.stage_name.as_str());
            line.append(" -> ");
            line.append(to.stage_name.as_str());
            line.append("] types compatible");
            let ghost was = lines@;
            let ghost l = line@;
            lines.push(line);
            assert(owned_views(lines@) =~= owned_views(was).push(l));
        } else {
            assert(!is_known_pair(known, p));
            assert(pair_fits(known, p));
        }
        i = i + 1;
    }
    assert(pairs@.take(i as int) =~= pairs@);
    Ok(lines)
}

/// Each stage with the next one.
fn consecutive_pairs(n: usize) -> (out: Vec<(usize, usize)>)
    ensures
        out@ == consecutive(n as nat),
        are_pairs(out@, n as nat),
{
    let mut out: Vec<(usize, usize)> = Vec::new();
    let mut i: usize = 1;
    while i < n
        invariant
            1 <= i,
            i <= n || n == 0,
            out@.len() == (if n == 0 {
                0
            } else {
                i - 1
            }),
            forall|k: int| 0 <= k < out@.len() ==> #[trigger] out@[k] == consecutive(n as nat)[k],
        decreases n - i,
    {
        out.push((i - 1, i));
        i = i + 1;
    }
    assert(out@ =~= consecutive(n as nat));
    out
}

/// Holds what each stage takes against what the stage before it gives.
pub fn check_neighbours(sigs: &Vec<StageSignature>) -> (r: Result<Vec<String>, FieldError>)
    ensures
        match r {
            Ok(lines) => {
                &&& forall|i: int|
                    0 <= i < sigs@.len() - 1 ==> pair_fits(
                        sig_views(sigs@),
                        #[trigger] consecutive(sigs@.len())[i],
                    )
                &&& owned_views(lines@) == pair_lines(
                    sig_views(sigs@),
                    consecutive(sigs@.len()),
                )
            },
            Err(e) => e.is_first_misfit(sig_views(sigs@), consecutive(sigs@.len())),
        },
{
    let pairs = consecutive_pairs(sigs.len());
    check_pairs(sigs, &pairs)
}

/// What the report says of a stage.
pub open spec fn stage_line(sig: SigModel) -> Seq<char> {
    "["@ + sig.name + "] OK: exports process-event"@ + (match (sig.input, sig.output) {
        (Some(i), Some(o)) => " ("@ + decimal(i.len()) + " fields in, "@ + decimal(o.len())
            + " fields out)"@,
        _ => ""@,
    })
}

/// What the report says of a stage.
pub fn describe_stage(sig: &StageSignature) -> (out: String)
    ensures
        out@ == stage_line(sig@),
{
    let mut out = "[".to_owned();
    out.append(sig.stage_name.as_str());
    out.append("] OK: exports process-event");
    let mut tail = "".to_owned();
    if let (Some(i), Some(o)) = (&sig.input, &sig.output) {
        assert(i@.len() == i.fields@.len() && o@.len() == o.fields@.len());
        tail = " (".to_owned();
        tail.append(decimal_text(i.fields.len() as u128).as_str());
        tail.append(" fields in, ");
        tail.append(decimal_text(o.fields.len() as u128).as_str());
        tail.append(" fields out)");
    }
    out.append(tail.as_str());
    out
}

/// Why a pipeline is refused.
#[derive(Debug)]
pub enum ValidationError {
    NoStages,
    /// The component of the stage at this place.
    Component(usize, ComponentFault),
    /// Two neighbours do not fit.
    Field(FieldError),
}

/// What is found of the stages in their files.
pub open spec fn sigs_found(stages: Seq<(String, String)>, files: Seq<Option<Vec<u8>>>) -> Seq<
    SigModel,
> {
    Seq::new(stages.len(), |i: int| sig_found(stages[i].0@, opt_bytes(files[i])))
}

/// What comes of the check of a pipeline: the first component at fault; or, where
/// there is none, the first field that does not fit; or else a report, with a
/// line on each stage and one on each pair of which both sides are known.
pub open spec fn is_verdict(
    r: Result<Vec<String>, ValidationError>,
    stages: Seq<(String, String)>,
    files: Seq<Option<Vec<u8>>>,
    pairs: Seq<(usize, usize)>,
) -> bool {
    let sigs = sigs_found(stages, files);
    match r {
        Err(ValidationError::NoStages) => stages.len() == 0,
        Err(ValidationError::Component(i, f)) => {
            &&& i < stages.len()
            &&& file_fault(opt_bytes(files[i as int])) == Some(f)
            &&& forall|k: int| 0 <= k < i ==> file_fault(opt_bytes(#[trigger] files[k])) is None
        },
        Err(ValidationError::Field(e)) => {
            &&& stages.len() > 0
            &&& forall|k: int|
                0 <= k < stages.len() ==> file_fault(opt_bytes(#[trigger] files[k])) is None
            &&& e.is_first_misfit(sigs, pairs)
        },
        Ok(report) => {
            &&& stages.len() > 0
            &&& forall|k: int|
                0 <= k < stages.len() ==> file_fault(opt_bytes(#[trigger] files[k])) is None
            &&& forall|i: int| 0 <= i < pairs.len() ==> pair_fits(sigs, #[trigger] pairs[i])
            &&& owned_views(report@) == sigs.map_values(|s: SigModel| stage_line(s))
                + pair_lines(sigs, pairs)
        },
    }
}

/// Checks the components of a pipeline, each with what its file holds and with the
/// ones it gives events to, and gives a report on them.
pub fn validate_components(
    stages: &Vec<(String, String)>,
    files: &Vec<Option<Vec<u8>>>,
    pairs: &Vec<(usize, usize)>,
) -> (r: Result<Vec<String>, ValidationError>)
    requires
        files@.len() == stages@.len(),
        are_pairs(pairs@, stages@.len()),
    ensures
        is_verdict(r, stages@, files@, pairs@),
{
    if stages.len() == 0 {
        return Err(ValidationError::NoStages);
    }
    let ghost found = sigs_found(stages@, files@);
    let ghost all = found.map_values(|s: SigModel| stage_line(s));
    let mut report: Vec<String> = Vec::new();
    let mut sigs: Vec<StageSignature> = Vec::new();
    let mut i: usize = 0;
    assert(owned_views(report@) =~= all.take(0));
    while i < stages.len()
        invariant
            i <= stages@.len(),
            files@.len() == stages@.len(),
            found == sigs_found(stages@, files@),
            all == found.map_values(|s: SigModel| stage_line(s)),
            forall|k: int| 0 <= k < i ==> file_fault(opt_bytes(#[trigger] files@[k])) is None,
            owned_views(report@) == all.take(i as int),
            sigs@.len() == i,
            forall|k: int| 0 <= k < i ==> (#[trigger] sigs@[k])@ == found[k],
        decreases stages@.len() - i,
    {
        let sig = match introspect_component(&stages[i].0, &stages[i].1, &files[i]) {
            Err(f) => {
                return Err(ValidationError::Component(i, f));
            },
            Ok(sig) => sig,
        };
        let line = describe_stage(&sig);
        assert(sig@ == found[i as int]);
        assert(line@ == all[i as int]);
        let ghost was = report@;
        report.push(line);
        assert(owned_views(report@) =~= owned_views(was).push(all[i as int]));
        assert(all.take(i + 1) =~= all.take(i as int).push(all[i as int]));
        sigs.push(sig);
        i = i + 1;
    }
    assert(all.take(i as int) =~= all);
    assert(sig_views(sigs@) =~= found);
    match check_pairs(&sigs, pairs) {
        Err(e) => Err(ValidationError::Field(e)),
        Ok(lines) => {
            let ghost more = owned_views(lines@);
            let mut k: usize = 0;
            assert(owned_views(report@) =~= all + more.take(0));
            while k < lines.len()
                invariant
                    k <= lines@.len(),
                    more == owned_views(lines@),
                    owned_views(report@) == all + more.take(k as int),
                decreases lines@.len() - k,
            {
                let ghost was = report@;
                assert(more[k as int] == lines@[k as int]@);
                report.push(lines[k].clone());
                assert(owned_views(report@) =~= owned_views(was).push(more[k as int]));
                assert(all + more.take(k + 1) =~= (all + more.take(k as int)).push(more[k as int]));
                k = k + 1;
            }
            assert(more.take(k as int) =~= more);
            Ok(report)
        },
    }
}

/// Checks the components of a pipeline in which each stage gives its events to the
/// next one, and gives a report on them.
pub fn validate_pipeline_components(
    stages: &Vec<(String, String)>,
    files: &Vec<Option<Vec<u8>>>,
) -> (r: Result<Vec<String>, ValidationError>)
    requires
        files@.len() == stages@.len(),
    ensures
        is_verdict(r, stages@, files@, consecutive(stages@.len())),
{
    let pairs = consecutive_pairs(stages.len());
    validate_components(stages, files, &pairs)
}

/// Law: a mismatch of neighbours is found. Where every component can be used, the
/// check of a pipeline succeeds exactly where every pair fits.
pub proof fn law_mismatches_are_found(
    r: Result<Vec<String>, ValidationError>,
    stages: Seq<(String, String)>,
    files: Seq<Option<Vec<u8>>>,
    pairs: Seq<(usize, usize)>,
)
    requires
        is_verdict(r, stages, files, pairs),
        stages.len() > 0,
        files.len() == stages.len(),
        forall|k: int| 0 <= k < files.len() ==> file_fault(opt_bytes(#[trigger] files[k])) is None,
    ensures
        r is Ok <==> forall|i: int|
            0 <= i < pairs.len() ==> pair_fits(sigs_found(stages, files), #[trigger] pairs[i]),
        r is Err ==> r->Err_0 is Field,
{
    let sigs = sigs_found(stages, files);
    if let Err(ValidationError::Field(e)) = r {
        let p = pairs[e.pair as int];
        assert(pair_fit(sigs, p, e.field as int) != FieldFit::Fits);
        assert(!pair_fits(sigs, p));
    }
}

/// Law: a required field must be given with its type, and one that may be absent
/// must have its type where it is given.
pub proof fn law_required_fields_are_given(sigs: Seq<SigModel>, p: (usize, usize), k: int)
    requires
        is_known_pair(sigs, p),
        pair_fits(sigs, p),
        0 <= k < sigs[p.1 as int].input->0.len(),
    ensures
        ({
            let f = sigs[p.1 as int].input->0[k];
            let given = type_given(sigs[p.0 as int].output->0, f.0);
            given == Some(f.1) || (f.2 && given is None)
        }),
{
    assert(pair_fit(sigs, p, k) == FieldFit::Fits);
}

/// What the user is told of a component that is refused.
pub open spec fn fault_text(f: ComponentFault, stage: Seq<char>, path: Seq<char>) -> Seq<char> {
    match f {
        ComponentFault::Unreadable => "failed to read wasm file "@ + quoted(path),
        ComponentFault::NotWasm => "["@ + stage + "] "@ + quoted(path)
            + " is not a valid wasm binary"@,
        ComponentFault::BrokenBinary => "["@ + stage + "] parse error"@,
        ComponentFault::BrokenExport => "["@ + stage + "] export read error"@,
        ComponentFault::CoreModule => "["@ + stage + "] "@ + quoted(path) + CORE_MODULE@,
        ComponentFault::NoProcess => "["@ + stage + "] component "@ + quoted(path)
            + " does not export epico:pipeline/process."@,
        ComponentFault::NoFunction => "["@ + stage + "] component "@ + quoted(path)
            + " does not export process-event."@,
    }
}

pub const CORE_MODULE: &'static str = " is a core wasm module, not a component. Rebuild with `cargo build --target wasm32-wasip2`.";

impl ComponentFault {
    /// What the user is told of the component of a stage.
    pub fn message(self, stage: &str, path: &str) -> (out: String)
        ensures
            out@ == fault_text(self, stage@, path@),
    {
        match self {
            ComponentFault::Unreadable => {
                let mut out = "failed to read wasm file ".to_owned();
                out.append(quoted_text(path).as_str());
                out
            },
            ComponentFault::NotWasm => {
                let mut out = "[".to_owned();
                out.append(stage);
                out.append("] ");
                out.append(quoted_text(path).as_str());
                out.append(" is not a valid wasm binary");
                out
            },
            ComponentFault::BrokenBinary => {
                let mut out = "[".to_owned();
                out.append(stage);
                out.append("] parse error");
                out
            },
            ComponentFault::BrokenExport => {
                let mut out = "[".to_owned();
                out.append(stage);
                out.append("] export read error");
                out
            },
            ComponentFault::CoreModule => {
                let mut out = "[".to_owned();
                out.append(stage);
                out.append("] ");
                out.append(quoted_text(path).as_str());
                out.append(CORE_MODULE);
                out
            },
            ComponentFault::NoProcess => {
                let mut out = "[".to_owned();
                out.append(stage);
                out.append("] component ");
                out.append(quoted_text(path).as_str());
                out.append(" does not export epico:pipeline/process.");
                out
            },
            ComponentFault::NoFunction => {
                let mut out = "[".to_owned();
                out.append(stage);
                out.append("] component ");
                out.append(quoted_text(path).as_str());
                out.append(" does not export process-event.");
                out
            },
        }
    }
}

/// What the user is told of a field that does not fit.
pub open spec fn misfit_text(
    from: Seq<char>,
    to: Seq<char>,
    field: Seq<char>,
    taken: Seq<char>,
    given: Option<Seq<char>>,
) -> Seq<char> {
    let head = "PIPELINE TYPE ERROR: "@ + from + " -> "@ + to + ": field "@ + quoted(field);
    match given {
        Some(t) => head + " has type "@ + quoted(t) + " in output but "@ + quoted(taken)
            + " in input"@,
        None => head + " ("@ + taken + ") is required by "@ + quoted(to)
            + " input but not present in "@ + quoted(from) + " output"@,
    }
}

impl FieldError {
    /// What the user is told of the field.
    pub fn message(&self) -> (out: String)
        ensures
            out@ == misfit_text(
                self.from@,
                self.to@,
                self.name@,
                self.taken@,
                opt_text(self.given),
            ),
    {
        let mut out = "PIPELINE TYPE ERROR: ".to_owned();
        out.append(self.from.as_str());
        out.append(" -> ");
        out.append(self.to.as_str());
        out.append(": field ");
        out.append(quoted_text(self.name.as_str()).as_str());
        match &self.given {
            Some(t) => {
                out.append(" has type ");
                out.append(quoted_text(t.as_str()).as_str());
                out.append(" in output but ");
                out.append(quoted_text(self.taken.as_str()).as_str());
                out.append(" in input");
            },
            None => {
                out.append(" (");
                out.append(self.taken.as_str());
                out.append(") is required by ");
                out.append(quoted_text(self.to.as_str()).as_str());
                out.append(" input but not present in ");
                out.append(quoted_text(self.from.as_str()).as_str());
                out.append(" output");
            },
        }
        out
    }
}

/// What the user is told of a pipeline that is refused.
pub open spec fn refusal_text(e: ValidationError, stages: Seq<(String, String)>) -> Seq<char> {
    match e {
        ValidationError::NoStages => "pipeline is empty"@,
        ValidationError::Component(i, f) => fault_text(
            f,
            stages[i as int].0@,
            stages[i as int].1@,
        ),
        ValidationError::Field(e) => misfit_text(
            e.from@,
            e.to@,
            e.name@,
            e.taken@,
            opt_text(e.given),
        ),
    }
}

impl ValidationError {
    /// What the user is told of the pipeline with those stages.
    pub fn message(&self, stages: &Vec<(String, String)>) -> (out: String)
        requires
            *self matches ValidationError::Component(i, f) ==> i < stages@.len(),
        ensures
            out@ == refusal_text(*self, stages@),
    {
        match self {
            ValidationError::NoStages => "pipeline is empty".to_owned(),
            ValidationError::Component(i, f) => f.message(
                stages[*i].0.as_str(),
                stages[*i].1.as_str(),
            ),
            ValidationError::Field(e) => e.message(),
        }
    }
}

} // verus!
