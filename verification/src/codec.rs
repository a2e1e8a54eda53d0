//! Persistence for the graph store: symbols and relations are flattened to a
//! pair of plain streams (strings and numbers), which bincode encodes to
//! bytes; decoding parses the streams back and rebuilds the store. The
//! flattening and parsing are verified to invert each other.

use vstd::prelude::*;
use crate::graph::{
    CodeGraph, EdgeRec, Language, RelationEdge, RelationType, SymbolData, SymbolNode, SymbolType,
};

verus! {

/// Why decoding failed.
#[derive(Debug, Clone, Copy, PartialEq, Eq, Structural)]
pub enum CodecError {
    MalformedData,
}


pub open spec fn lang_code(l: Language) -> u64 {
    match l {
        Language::Python => 0,
        Language::JavaScript => 1,
        Language::TypeScript => 2,
        Language::Rust => 3,
    }
}

pub open spec fn lang_of_code(c: u64) -> Option<Language> {
    if c == 0 {
        Some(Language::Python)
    } else if c == 1 {
        Some(Language::JavaScript)
    } else if c == 2 {
        Some(Language::TypeScript)
    } else if c == 3 {
        Some(Language::Rust)
    } else {
        None
    }
}

pub open spec fn type_code(t: SymbolType) -> u64 {
    match t {
        SymbolType::Function => 0,
        SymbolType::Class => 1,
        SymbolType::Struct => 2,
        SymbolType::Variable => 3,
        SymbolType::Constant => 4,
        SymbolType::Interface => 5,
        SymbolType::Enum => 6,
    }
}

pub open spec fn type_of_code(c: u64) -> Option<SymbolType> {
    if c == 0 {
        Some(SymbolType::Function)
    } else if c == 1 {
        Some(SymbolType::Class)
    } else if c == 2 {
        Some(SymbolType::Struct)
    } else if c == 3 {
        Some(SymbolType::Variable)
    } else if c == 4 {
        Some(SymbolType::Constant)
    } else if c == 5 {
        Some(SymbolType::Interface)
    } else if c == 6 {
        Some(SymbolType::Enum)
    } else {
        None
    }
}

pub open spec fn rel_code(t: RelationType) -> u64 {
    match t {
        RelationType::DirectCall => 0,
        RelationType::Import => 1,
        RelationType::DynamicCall => 2,
        RelationType::MethodCall => 3,
        RelationType::Instantiation => 4,
        RelationType::Inheritance => 5,
        RelationType::FieldAccess => 6,
        RelationType::Assignment => 7,
        RelationType::Reference => 8,
    }
}

pub open spec fn rel_of_code(c: u64) -> Option<RelationType> {
    if c == 0 {
        Some(RelationType::DirectCall)
    } else if c == 1 {
        Some(RelationType::Import)
    } else if c == 2 {
        Some(RelationType::DynamicCall)
    } else if c == 3 {
        Some(RelationType::MethodCall)
    } else if c == 4 {
        Some(RelationType::Instantiation)
    } else if c == 5 {
        Some(RelationType::Inheritance)
    } else if c == 6 {
        Some(RelationType::FieldAccess)
    } else if c == 7 {
        Some(RelationType::Assignment)
    } else if c == 8 {
        Some(RelationType::Reference)
    } else {
        None
    }
}

fn lang_to_code(l: Language) -> (c: u64)
    ensures
        c == lang_code(l),
{
    match l {
        Language::Python => 0,
        Language::JavaScript => 1,
        Language::TypeScript => 2,
        Language::Rust => 3,
    }
}

fn code_to_lang(c: u64) -> (r: Option<Language>)
    ensures
        r == lang_of_code(c),
{
    if c == 0 {
        Some(Language::Python)
    } else if c == 1 {
        Some(Language::JavaScript)
    } else if c == 2 {
        Some(Language::TypeScript)
    } else if c == 3 {
        Some(Language::Rust)
    } else {
        None
    }
}

fn type_to_code(t: SymbolType) -> (c: u64)
    ensures
        c == type_code(t),
{
    match t {
        SymbolType::Function => 0,
        SymbolType::Class => 1,
        SymbolType::Struct => 2,
        SymbolType::Variable => 3,
        SymbolType::Constant => 4,
        SymbolType::Interface => 5,
        SymbolType::Enum => 6,
    }
}

fn code_to_type(c: u64) -> (r: Option<SymbolType>)
    ensures
        r == type_of_code(c),
{
    if c == 0 {
        Some(SymbolType::Function)
    } else if c == 1 {
        Some(SymbolType::Class)
    } else if c == 2 {
        Some(SymbolType::Struct)
    } else if c == 3 {
        Some(SymbolType::Variable)
    } else if c == 4 {
        Some(SymbolType::Constant)
    } else if c == 5 {
        Some(SymbolType::Interface)
    } else if c == 6 {
        Some(SymbolType::Enum)
    } else {
        None
    }
}

fn rel_to_code(t: RelationType) -> (c: u64)
    ensures
        c == rel_code(t),
{
    match t {
        RelationType::DirectCall => 0,
        RelationType::Import => 1,
        RelationType::DynamicCall => 2,
        RelationType::MethodCall => 3,
        RelationType::Instantiation => 4,
        RelationType::Inheritance => 5,
        RelationType::FieldAccess => 6,
        RelationType::Assignment => 7,
        RelationType::Reference => 8,
    }
}

fn code_to_rel(c: u64) -> (r: Option<RelationType>)
    ensures
        r == rel_of_code(c),
{
    if c == 0 {
        Some(RelationType::DirectCall)
    } else if c == 1 {
        Some(RelationType::Import)
    } else if c == 2 {
        Some(RelationType::DynamicCall)
    } else if c == 3 {
        Some(RelationType::MethodCall)
    } else if c == 4 {
        Some(RelationType::Instantiation)
    } else if c == 5 {
        Some(RelationType::Inheritance)
    } else if c == 6 {
        Some(RelationType::FieldAccess)
    } else if c == 7 {
        Some(RelationType::Assignment)
    } else if c == 8 {
        Some(RelationType::Reference)
    } else {
        None
    }
}

/// The visibility flag of a symbol: 1 when present, 0 when absent.
pub open spec fn vis_flag(v: Option<Seq<char>>) -> u64 {
    match v {
        Some(_) => 1,
        None => 0,
    }
}

/// The number stream of one symbol.
pub open spec fn sym_nums(s: SymbolData) -> Seq<u64> {
    seq![
        s.line as u64,
        lang_code(s.language),
        type_code(s.symbol_type),
        vis_flag(s.visibility),
        s.module_segments.len() as u64,
    ]
}

/// The string stream of one symbol.
pub open spec fn sym_strs(s: SymbolData) -> Seq<Seq<char>> {
    seq![s.name, s.file, s.signature] + s.module_segments + match s.visibility {
        Some(v) => seq![v],
        None => Seq::empty(),
    }
}

/// The number stream of a symbol sequence.
pub open spec fn syms_nums(ss: Seq<SymbolData>) -> Seq<u64>
    decreases ss.len(),
{
    if ss.len() == 0 {
        Seq::empty()
    } else {
        sym_nums(ss[0]) + syms_nums(ss.drop_first())
    }
}

/// The string stream of a symbol sequence.
pub open spec fn syms_strs(ss: Seq<SymbolData>) -> Seq<Seq<char>>
    decreases ss.len(),
{
    if ss.len() == 0 {
        Seq::empty()
    } else {
        sym_strs(ss[0]) + syms_strs(ss.drop_first())
    }
}

/// The number stream of one relation.
pub open spec fn edge_nums(e: EdgeRec) -> Seq<u64> {
    seq![e.from, e.to, rel_code(e.relation_type), e.line as u64]
}

/// The number stream of a relation sequence.
pub open spec fn edges_nums(es: Seq<EdgeRec>) -> Seq<u64>
    decreases es.len(),
{
    if es.len() == 0 {
        Seq::empty()
    } else {
        edge_nums(es[0]) + edges_nums(es.drop_first())
    }
}

/// The string stream of a relation sequence.
pub open spec fn edges_strs(es: Seq<EdgeRec>) -> Seq<Seq<char>>
    decreases es.len(),
{
    if es.len() == 0 {
        Seq::empty()
    } else {
        seq![es[0].expression] + edges_strs(es.drop_first())
    }
}

/// The full number stream of a store.
pub open spec fn enc_nums(ss: Seq<SymbolData>, es: Seq<EdgeRec>) -> Seq<u64> {
    seq![ss.len() as u64] + syms_nums(ss) + seq![es.len() as u64] + edges_nums(es)
}

/// The full string stream of a store.
pub open spec fn enc_strs(ss: Seq<SymbolData>, es: Seq<EdgeRec>) -> Seq<Seq<char>> {
    syms_strs(ss) + edges_strs(es)
}

/// What bincode's `serialize` returns for a `(Vec<String>, Vec<u64>)` value;
/// a deterministic function of the strings and numbers alone.
pub uninterp spec fn wire_of(strs: Seq<Seq<char>>, nums: Seq<u64>) -> Seq<u8>;

/// Relies on bincode 1's `serialize` with its default options: it encodes a
/// value of a serde-serializable type into bytes, deterministically, and for
/// a pair of plain vectors written into memory it has no failure path (the
/// only error sources are the writer and the type's own serializer, and
/// neither strings nor integers ever fail).
#[verifier::external_body]
fn bc_encode(strs: &Vec<String>, nums: &Vec<u64>) -> (r: Vec<u8>)
    ensures
        r@ == wire_of(strs.deep_view(), nums@),
{
    bincode::serialize(&(strs, nums)).expect("bincode cannot fail on plain vectors")
}

/// Relies on bincode 1's `deserialize` with its default options: it is the
/// inverse of `serialize`, returning exactly the value whose encoding the
/// input bytes are.
#[verifier::external_body]
fn bc_decode(data: &[u8]) -> (r: Result<(Vec<String>, Vec<u64>), CodecError>)
    ensures
        r matches Ok(p) ==> forall|ss: Seq<Seq<char>>, ns: Seq<u64>|
            data@ == #[trigger] wire_of(ss, ns) ==> p.0.deep_view() == ss && p.1@ == ns,
        r matches Err(_) ==> forall|ss: Seq<Seq<char>>, ns: Seq<u64>|
            data@ != #[trigger] wire_of(ss, ns),
{
    match bincode::deserialize::<(Vec<String>, Vec<u64>)>(data) {
        Ok(p) => Ok(p),
        Err(_) => Err(CodecError::MalformedData),
    }
}

proof fn lemma_syms_nums_push(ss: Seq<SymbolData>, s: SymbolData)
    ensures
        syms_nums(ss.push(s)) =~= syms_nums(ss) + sym_nums(s),
        syms_strs(ss.push(s)) =~= syms_strs(ss) + sym_strs(s),
    decreases ss.len(),
{
    if ss.len() == 0 {
        assert(ss.push(s).drop_first() =~= Seq::<SymbolData>::empty());
        assert(ss.push(s)[0] == s);
        assert(syms_nums(ss.push(s)) == sym_nums(s) + syms_nums(Seq::<SymbolData>::empty()));
        assert(syms_strs(ss.push(s)) == sym_strs(s) + syms_strs(Seq::<SymbolData>::empty()));
    } else {
        lemma_syms_nums_push(ss.drop_first(), s);
        assert(ss.push(s).drop_first() =~= ss.drop_first().push(s));
        assert(ss.push(s)[0] == ss[0]);
        assert(syms_nums(ss.push(s)) == sym_nums(ss[0]) + syms_nums(ss.drop_first().push(s)));
        assert(syms_nums(ss) == sym_nums(ss[0]) + syms_nums(ss.drop_first()));
        assert(syms_strs(ss.push(s)) == sym_strs(ss[0]) + syms_strs(ss.drop_first().push(s)));
        assert(syms_strs(ss) == sym_strs(ss[0]) + syms_strs(ss.drop_first()));
    }
}

proof fn lemma_edges_nums_push(es: Seq<EdgeRec>, e: EdgeRec)
    ensures
        edges_nums(es.push(e)) =~= edges_nums(es) + edge_nums(e),
        edges_strs(es.push(e)) =~= edges_strs(es) + seq![e.expression],
    decreases es.len(),
{
    if es.len() == 0 {
        assert(es.push(e).drop_first() =~= Seq::<EdgeRec>::empty());
        assert(es.push(e)[0] == e);
        assert(edges_nums(es.push(e)) == edge_nums(e) + edges_nums(Seq::<EdgeRec>::empty()));
        assert(edges_strs(es.push(e)) == seq![e.expression] + edges_strs(
            Seq::<EdgeRec>::empty(),
        ));
    } else {
        lemma_edges_nums_push(es.drop_first(), e);
        assert(es.push(e).drop_first() =~= es.drop_first().push(e));
        assert(es.push(e)[0] == es[0]);
        assert(edges_nums(es.push(e)) == edge_nums(es[0]) + edges_nums(es.drop_first().push(e)));
        assert(edges_nums(es) == edge_nums(es[0]) + edges_nums(es.drop_first()));
        assert(edges_strs(es.push(e)) == seq![es[0].expression] + edges_strs(
            es.drop_first().push(e),
        ));
        assert(edges_strs(es) == seq![es[0].expression] + edges_strs(es.drop_first()));
    }
}

impl CodeGraph {
    /// Encodes the store: symbols and relations flattened to plain streams,
    /// then turned into bytes by bincode. Encoding always succeeds, and the
    /// bytes are exactly the encoding of the store's contents.
    pub fn serialize(&self) -> (r: Result<Vec<u8>, CodecError>)
        ensures
            r matches Ok(b) && b@ == wire_of(
                enc_strs(self.syms_view(), self.rels_view()),
                enc_nums(self.syms_view(), self.rels_view()),
            ),
    {
        let ghost all_syms = self.syms_view();
        let ghost all_rels = self.rels_view();
        let n = self.node_count();
        let m = self.edge_count();
        let mut nums: Vec<u64> = Vec::new();
        let mut strs: Vec<String> = Vec::new();
        nums.push(n as u64);
        let mut i: usize = 0;
        while i < n
            invariant
                0 <= i <= n,
                n == self.nodes().len(),
                all_syms == self.syms_view(),
                nums@ =~= seq![n as u64] + syms_nums(all_syms.take(i as int)),
                strs.deep_view() =~= syms_strs(all_syms.take(i as int)),
            decreases n - i,
        {
            let ghost prev = all_syms.take(i as int);
            let sym = match self.symbol(i) {
                Some(s) => s,
                None => {
                    proof {
                        assert(false);
                    }
                    unreached()
                },
            };
            proof {
                assert(sym@ == all_syms[i as int]);
            }
            nums.push(sym.line as u64);
            nums.push(lang_to_code(sym.language));
            nums.push(type_to_code(sym.symbol_type));
            match &sym.visibility {
                Some(_) => nums.push(1),
                None => nums.push(0),
            }
            nums.push(sym.module_segments.len() as u64);
            let ghost start = strs.deep_view();
            strs.push(sym.name.clone());
            let ghost s1 = strs.deep_view();
            proof {
                assert(s1 =~~= start.push(sym@.name));
            }
            strs.push(sym.file.clone());
            let ghost s2 = strs.deep_view();
            proof {
                assert(s2 =~~= s1.push(sym@.file));
            }
            strs.push(sym.signature.clone());
            let ghost base = strs.deep_view();
            proof {
                assert(base =~~= s2.push(sym@.signature));
                assert(base =~~= start + seq![sym@.name, sym@.file, sym@.signature]);
            }
            let k = sym.module_segments.len();
            let mut t: usize = 0;
            while t < k
                invariant
                    0 <= t <= k,
                    k == sym.module_segments@.len(),
                    strs.deep_view() =~= base + sym@.module_segments.take(t as int),
                decreases k - t,
            {
                let ghost pre = strs.deep_view();
                strs.push(sym.module_segments[t].clone());
                proof {
                    assert(sym@.module_segments.take(t + 1) =~= sym@.module_segments.take(
                        t as int,
                    ).push(sym@.module_segments[t as int]));
                    assert(strs.deep_view() =~~= pre.push(sym@.module_segments[t as int]));
                    assert(pre.push(sym@.module_segments[t as int]) =~~= (base
                        + sym@.module_segments.take(t as int)).push(
                        sym@.module_segments[t as int],
                    ));
                    assert((base + sym@.module_segments.take(t as int)).push(
                        sym@.module_segments[t as int],
                    ) =~~= base + sym@.module_segments.take(t + 1));
                    assert(strs.deep_view() =~~= base + sym@.module_segments.take(t + 1));
                }
                t += 1;
            }
            proof {
                assert(sym@.module_segments.take(k as int) =~= sym@.module_segments);
            }
            let ghost with_segs = strs.deep_view();
            match &sym.visibility {
                Some(v) => {
                    strs.push(v.clone());
                    proof {
                        assert(sym@.visibility == Some(v@));
                        assert(strs.deep_view() =~~= with_segs.push(v@));
                    }
                },
                None => (),
            }
            proof {
                lemma_syms_nums_push(prev, sym@);
                assert(all_syms.take(i + 1) =~= prev.push(sym@));
                assert(strs.deep_view() =~~= start + sym_strs(sym@));
                assert(strs.deep_view() =~~= syms_strs(all_syms.take(i + 1)));
                assert(nums@ =~= seq![n as u64] + syms_nums(all_syms.take(i + 1)));
            }
            i += 1;
        }
        proof {
            assert(all_syms.take(n as int) =~= all_syms);
        }
        nums.push(m as u64);
        let ghost nums_base = nums@;
        let mut j: usize = 0;
        while j < m
            invariant
                0 <= j <= m,
                m == self.edges().len(),
                all_syms == self.syms_view(),
                all_rels == self.rels_view(),
                nums_base == seq![n as u64] + syms_nums(all_syms) + seq![m as u64],
                nums@ =~= nums_base + edges_nums(all_rels.take(j as int)),
                strs.deep_view() =~= syms_strs(all_syms) + edges_strs(all_rels.take(j as int)),
            decreases m - j,
        {
            let ghost prev = all_rels.take(j as int);
            let (from, to, edge) = match self.relation(j) {
                Some(e) => e,
                None => {
                    proof {
                        assert(false);
                    }
                    unreached()
                },
            };
            proof {
                assert(all_rels[j as int] == EdgeRec {
                    from: from as u64,
                    to: to as u64,
                    relation_type: edge@.relation_type,
                    line: edge@.line,
                    expression: edge@.expression,
                });
            }
            nums.push(from as u64);
            nums.push(to as u64);
            nums.push(rel_to_code(edge.relation_type));
            nums.push(edge.line as u64);
            let ghost pre = strs.deep_view();
            strs.push(edge.expression.clone());
            proof {
                assert(strs.deep_view() =~~= pre.push(edge@.expression));
                lemma_edges_nums_push(prev, all_rels[j as int]);
                assert(all_rels.take(j + 1) =~= prev.push(all_rels[j as int]));
                assert(nums@ =~= nums_base + edges_nums(all_rels.take(j + 1)));
                assert(strs.deep_view() =~~= syms_strs(all_syms) + edges_strs(
                    all_rels.take(j + 1),
                ));
            }
            j += 1;
        }
        proof {
            assert(all_rels.take(m as int) =~= all_rels);
            assert(nums@ =~= enc_nums(all_syms, all_rels));
            assert(strs.deep_view() =~= enc_strs(all_syms, all_rels));
        }
        Ok(bc_encode(&strs, &nums))
    }
}

/// Parses one symbol from the front of the two streams.
pub open spec fn parse_sym(ns: Seq<u64>, cs: Seq<Seq<char>>) -> Option<
    (SymbolData, Seq<u64>, Seq<Seq<char>>),
> {
    if ns.len() < 5 {
        None
    } else {
        match (lang_of_code(ns[1]), type_of_code(ns[2])) {
            (Some(lang), Some(st)) => {
                let line = ns[0];
                let vf = ns[3];
                let k = ns[4];
                if vf > 1 || line > usize::MAX || k > usize::MAX || cs.len() < 3 + k + vf {
                    None
                } else {
                    let s = SymbolData {
                        name: cs[0],
                        file: cs[1],
                        signature: cs[2],
                        line: line as nat,
                        language: lang,
                        symbol_type: st,
                        module_segments: cs.subrange(3, 3 + k),
                        visibility: if vf == 1 {
                            Some(cs[3 + k])
                        } else {
                            None
                        },
                    };
                    Some((s, ns.skip(5), cs.skip(3 + k + vf)))
                }
            },
            _ => None,
        }
    }
}

/// Parses `count` symbols from the front of the two streams.
pub open spec fn parse_syms(ns: Seq<u64>, cs: Seq<Seq<char>>, count: nat) -> Option<
    (Seq<SymbolData>, Seq<u64>, Seq<Seq<char>>),
>
    decreases count,
{
    if count == 0 {
        Some((Seq::empty(), ns, cs))
    } else {
        match parse_sym(ns, cs) {
            None => None,
            Some((s, ns2, cs2)) => match parse_syms(ns2, cs2, (count - 1) as nat) {
                None => None,
                Some((ss, ns3, cs3)) => Some((seq![s] + ss, ns3, cs3)),
            },
        }
    }
}

/// Parses one relation from the front of the two streams.
pub open spec fn parse_edge(ns: Seq<u64>, cs: Seq<Seq<char>>) -> Option<
    (EdgeRec, Seq<u64>, Seq<Seq<char>>),
> {
    if ns.len() < 4 {
        None
    } else {
        match rel_of_code(ns[2]) {
            Some(rt) => {
                if ns[3] > usize::MAX || cs.len() < 1 {
                    None
                } else {
                    let e = EdgeRec {
                        from: ns[0],
                        to: ns[1],
                        relation_type: rt,
                        line: ns[3] as nat,
                        expression: cs[0],
                    };
                    Some((e, ns.skip(4), cs.skip(1)))
                }
            },
            None => None,
        }
    }
}

/// Parses `count` relations from the front of the two streams.
pub open spec fn parse_edges(ns: Seq<u64>, cs: Seq<Seq<char>>, count: nat) -> Option<
    (Seq<EdgeRec>, Seq<u64>, Seq<Seq<char>>),
>
    decreases count,
{
    if count == 0 {
        Some((Seq::empty(), ns, cs))
    } else {
        match parse_edge(ns, cs) {
            None => None,
            Some((e, ns2, cs2)) => match parse_edges(ns2, cs2, (count - 1) as nat) {
                None => None,
                Some((es, ns3, cs3)) => Some((seq![e] + es, ns3, cs3)),
            },
        }
    }
}

/// Parses a whole store from the two streams, requiring full consumption.
pub open spec fn dec_spec(cs: Seq<Seq<char>>, ns: Seq<u64>) -> Option<
    (Seq<SymbolData>, Seq<EdgeRec>),
> {
    if ns.len() < 1 {
        None
    } else {
        let n = ns[0];
        if n > 0xFFFF_FFFFu64 {
            None
        } else {
            match parse_syms(ns.drop_first(), cs, n as nat) {
                None => None,
                Some((ss, ns2, cs2)) => {
                    if ns2.len() < 1 {
                        None
                    } else {
                        let m = ns2[0];
                        if m > 0xFFFF_FFFFu64 {
                            None
                        } else {
                            match parse_edges(ns2.drop_first(), cs2, m as nat) {
                                None => None,
                                Some((es, ns3, cs3)) => {
                                    if ns3.len() == 0 && cs3.len() == 0 {
                                        Some((ss, es))
                                    } else {
                                        None
                                    }
                                },
                            }
                        }
                    }
                },
            }
        }
    }
}

/// A symbol value whose numeric parts survive the numeric streams.
pub open spec fn sym_ok(s: SymbolData) -> bool {
    s.line <= usize::MAX && s.module_segments.len() <= usize::MAX
}

pub open spec fn syms_ok(ss: Seq<SymbolData>) -> bool {
    forall|i: int| 0 <= i < ss.len() ==> sym_ok(#[trigger] ss[i])
}

/// A relation value whose numeric parts survive the numeric streams.
pub open spec fn edge_ok(e: EdgeRec) -> bool {
    e.line <= usize::MAX
}

pub open spec fn edges_ok(es: Seq<EdgeRec>) -> bool {
    forall|j: int| 0 <= j < es.len() ==> edge_ok(#[trigger] es[j])
}

/// Every relation's endpoints lie below `nsym`.
pub open spec fn endpoints_ok(es: Seq<EdgeRec>, nsym: nat) -> bool {
    forall|j: int| 0 <= j < es.len() ==> (#[trigger] es[j]).from < nsym && es[j].to < nsym
}

proof fn lemma_parse_sym_enc(s: SymbolData, ns: Seq<u64>, cs: Seq<Seq<char>>)
    requires
        sym_ok(s),
    ensures
        parse_sym(sym_nums(s) + ns, sym_strs(s) + cs) == Some((s, ns, cs)),
{
    let fullns = sym_nums(s) + ns;
    let fullcs = sym_strs(s) + cs;
    assert(fullns[0] == s.line as u64);
    assert(fullns[1] == lang_code(s.language));
    assert(fullns[2] == type_code(s.symbol_type));
    assert(fullns[3] == vis_flag(s.visibility));
    assert(fullns[4] == s.module_segments.len() as u64);
    assert(lang_of_code(lang_code(s.language)) == Some(s.language));
    assert(type_of_code(type_code(s.symbol_type)) == Some(s.symbol_type));
    let k = s.module_segments.len() as int;
    let vf = vis_flag(s.visibility) as int;
    assert(sym_strs(s).len() == 3 + k + vf);
    assert(fullcs.len() >= 3 + k + vf);
    assert(fullcs[0] == s.name);
    assert(fullcs[1] == s.file);
    assert(fullcs[2] == s.signature);
    assert(fullcs.subrange(3, 3 + k) =~= s.module_segments) by {
        assert forall|t: int| 0 <= t < k implies fullcs.subrange(3, 3 + k)[t]
            == s.module_segments[t] by {
            assert(fullcs[3 + t] == sym_strs(s)[3 + t]);
            assert(sym_strs(s)[3 + t] == s.module_segments[t]);
        }
    }
    match parse_sym(fullns, fullcs) {
        Some((s2, nsr, csr)) => {
            if vf == 1 {
                assert(fullcs[3 + k] == sym_strs(s)[3 + k]);
                assert(sym_strs(s)[3 + k] == s.visibility.unwrap());
            }
            assert(s2 =~~= s);
            assert(nsr =~= ns);
            assert(csr =~= cs);
        },
        None => {
            assert(false);
        },
    }
}

proof fn lemma_parse_syms_enc(ss: Seq<SymbolData>, ns: Seq<u64>, cs: Seq<Seq<char>>)
    requires
        syms_ok(ss),
    ensures
        parse_syms(syms_nums(ss) + ns, syms_strs(ss) + cs, ss.len()) == Some((ss, ns, cs)),
    decreases ss.len(),
{
    if ss.len() == 0 {
        assert(syms_nums(ss) + ns =~= ns);
        assert(syms_strs(ss) + cs =~= cs);
    } else {
        let s0 = ss[0];
        let rest = ss.drop_first();
        assert(syms_nums(ss) == sym_nums(s0) + syms_nums(rest));
        assert(syms_strs(ss) == sym_strs(s0) + syms_strs(rest));
        assert((sym_nums(s0) + syms_nums(rest)) + ns =~= sym_nums(s0) + (syms_nums(rest) + ns));
        assert((sym_strs(s0) + syms_strs(rest)) + cs =~= sym_strs(s0) + (syms_strs(rest) + cs));
        lemma_parse_sym_enc(s0, syms_nums(rest) + ns, syms_strs(rest) + cs);
        assert(syms_ok(rest)) by {
            assert forall|i: int| 0 <= i < rest.len() implies sym_ok(#[trigger] rest[i]) by {
                assert(rest[i] == ss[i + 1]);
            }
        }
        lemma_parse_syms_enc(rest, ns, cs);
        assert(seq![s0] + rest =~= ss);
    }
}

proof fn lemma_parse_edge_enc(e: EdgeRec, ns: Seq<u64>, cs: Seq<Seq<char>>)
    requires
        edge_ok(e),
    ensures
        parse_edge(edge_nums(e) + ns, edges_strs(seq![e]) + cs) == Some((e, ns, cs)),
{
    let fullns = edge_nums(e) + ns;
    let fullcs = edges_strs(seq![e]) + cs;
    assert(edges_strs(seq![e]) == seq![e.expression] + edges_strs(
        seq![e].drop_first(),
    ));
    assert(seq![e].drop_first() =~= Seq::<EdgeRec>::empty());
    assert(edges_strs(seq![e]) =~= seq![e.expression]);
    assert(fullns[0] == e.from);
    assert(fullns[1] == e.to);
    assert(fullns[2] == rel_code(e.relation_type));
    assert(fullns[3] == e.line as u64);
    assert(rel_of_code(rel_code(e.relation_type)) == Some(e.relation_type));
    assert(fullcs[0] == e.expression);
    match parse_edge(fullns, fullcs) {
        Some((e2, nsr, csr)) => {
            assert(e2 =~~= e);
            assert(nsr =~= ns);
            assert(csr =~= cs);
        },
        None => {
            assert(false);
        },
    }
}

proof fn lemma_parse_edges_enc(es: Seq<EdgeRec>, ns: Seq<u64>, cs: Seq<Seq<char>>)
    requires
        edges_ok(es),
    ensures
        parse_edges(edges_nums(es) + ns, edges_strs(es) + cs, es.len()) == Some((es, ns, cs)),
    decreases es.len(),
{
    if es.len() == 0 {
        assert(edges_nums(es) + ns =~= ns);
        assert(edges_strs(es) + cs =~= cs);
    } else {
        let e0 = es[0];
        let rest = es.drop_first();
        assert(edges_nums(es) == edge_nums(e0) + edges_nums(rest));
        assert(edges_strs(es) == seq![e0.expression] + edges_strs(rest));
        assert((edge_nums(e0) + edges_nums(rest)) + ns =~= edge_nums(e0) + (edges_nums(rest)
            + ns));
        assert(edges_strs(seq![e0]) =~= seq![e0.expression]) by {
            assert(seq![e0].drop_first() =~= Seq::<EdgeRec>::empty());
            assert(seq![e0][0] == e0);
            assert(edges_strs(seq![e0]) == seq![e0.expression] + edges_strs(
                seq![e0].drop_first(),
            ));
        }
        assert((seq![e0.expression] + edges_strs(rest)) + cs =~= edges_strs(seq![e0]) + (
        edges_strs(rest) + cs));
        lemma_parse_edge_enc(e0, edges_nums(rest) + ns, edges_strs(rest) + cs);
        assert(edges_ok(rest)) by {
            assert forall|i: int| 0 <= i < rest.len() implies edge_ok(#[trigger] rest[i]) by {
                assert(rest[i] == es[i + 1]);
            }
        }
        lemma_parse_edges_enc(rest, ns, cs);
        assert(seq![e0] + rest =~= es);
    }
}

/// The codec round trip: parsing the encoding of any representable store
/// contents yields exactly those contents.
pub proof fn lemma_dec_enc(ss: Seq<SymbolData>, es: Seq<EdgeRec>)
    requires
        syms_ok(ss),
        edges_ok(es),
        ss.len() <= 0xFFFF_FFFFnat,
        es.len() <= 0xFFFF_FFFFnat,
    ensures
        dec_spec(enc_strs(ss, es), enc_nums(ss, es)) == Some((ss, es)),
{
    let ns = enc_nums(ss, es);
    let cs = enc_strs(ss, es);
    assert(ns[0] == ss.len() as u64);
    assert(ns.drop_first() =~= syms_nums(ss) + (seq![es.len() as u64] + edges_nums(es)));
    lemma_parse_syms_enc(ss, seq![es.len() as u64] + edges_nums(es), edges_strs(es));
    assert(cs =~= syms_strs(ss) + edges_strs(es));
    let ns2 = seq![es.len() as u64] + edges_nums(es);
    assert(ns2[0] == es.len() as u64);
    assert(ns2.drop_first() =~= edges_nums(es) + Seq::<u64>::empty());
    assert(edges_strs(es) =~= edges_strs(es) + Seq::<Seq<char>>::empty());
    lemma_parse_edges_enc(es, Seq::empty(), Seq::empty());
}

/// Wraps a parse continuation: prefixes already-parsed symbols.
pub open spec fn prepend_syms(
    pre: Seq<SymbolData>,
    r: Option<(Seq<SymbolData>, Seq<u64>, Seq<Seq<char>>)>,
) -> Option<(Seq<SymbolData>, Seq<u64>, Seq<Seq<char>>)> {
    match r {
        Some((a, b, c)) => Some((pre + a, b, c)),
        None => None,
    }
}

/// Wraps a parse continuation: prefixes already-parsed relations.
pub open spec fn prepend_edges(
    pre: Seq<EdgeRec>,
    r: Option<(Seq<EdgeRec>, Seq<u64>, Seq<Seq<char>>)>,
) -> Option<(Seq<EdgeRec>, Seq<u64>, Seq<Seq<char>>)> {
    match r {
        Some((a, b, c)) => Some((pre + a, b, c)),
        None => None,
    }
}

/// The relations of `es` whose endpoints lie below `nsym`, in order.
pub open spec fn keep_valid(es: Seq<EdgeRec>, nsym: nat) -> Seq<EdgeRec>
    decreases es.len(),
{
    if es.len() == 0 {
        Seq::empty()
    } else {
        keep_valid(es.drop_last(), nsym) + if es.last().from < nsym && es.last().to < nsym {
            seq![es.last()]
        } else {
            Seq::empty()
        }
    }
}

pub proof fn lemma_keep_valid_all(es: Seq<EdgeRec>, nsym: nat)
    requires
        endpoints_ok(es, nsym),
    ensures
        keep_valid(es, nsym) =~= es,
    decreases es.len(),
{
    if es.len() > 0 {
        assert(endpoints_ok(es.drop_last(), nsym)) by {
            assert(forall|j: int|
                0 <= j < es.len() - 1 ==> #[trigger] es.drop_last()[j] == es[j]);
        }
        lemma_keep_valid_all(es.drop_last(), nsym);
    }
}

/// Parses `count` symbols from the streams, starting at the given cursors,
/// and inserts each into `g`.
fn parse_syms_into(
    nums: &Vec<u64>,
    strs: &Vec<String>,
    pi0: usize,
    si0: usize,
    count: usize,
    g: &mut CodeGraph,
) -> (r: Option<(usize, usize)>)
    requires
        old(g).nodes().len() == 0,
        old(g).edges().len() == 0,
        old(g).wf(),
        pi0 <= nums@.len(),
        si0 <= strs@.len(),
        count <= 0xFFFF_FFFFusize,
    ensures
        final(g).edges().len() == 0,
        final(g).wf(),
        match r {
            Some(c) => {
                &&& pi0 <= c.0 <= nums@.len()
                &&& si0 <= c.1 <= strs@.len()
                &&& parse_syms(
                    nums@.skip(pi0 as int),
                    strs.deep_view().skip(si0 as int),
                    count as nat,
                ) == Some(
                    (
                        final(g).syms_view(),
                        nums@.skip(c.0 as int),
                        strs.deep_view().skip(c.1 as int),
                    ),
                )
            },
            None => parse_syms(
                nums@.skip(pi0 as int),
                strs.deep_view().skip(si0 as int),
                count as nat,
            ) is None,
        },
{
    let ghost ns0 = nums@.skip(pi0 as int);
    let ghost cs0 = strs.deep_view().skip(si0 as int);
    let mut pi = pi0;
    let mut si = si0;
    let mut t: usize = 0;
    let ghost mut acc: Seq<SymbolData> = Seq::empty();
    while t < count
        invariant
            0 <= t <= count,
            count <= 0xFFFF_FFFFusize,
            pi0 <= pi <= nums@.len(),
            si0 <= si <= strs@.len(),
            ns0 == nums@.skip(pi0 as int),
            cs0 == strs.deep_view().skip(si0 as int),
            g.edges().len() == 0,
            g.wf(),
            g.nodes().len() == t,
            acc =~= g.syms_view(),
            parse_syms(ns0, cs0, count as nat) == prepend_syms(
                acc,
                parse_syms(
                    nums@.skip(pi as int),
                    strs.deep_view().skip(si as int),
                    (count - t) as nat,
                ),
            ),
        decreases count - t,
    {
        let ghost x = nums@.skip(pi as int);
        let ghost y = strs.deep_view().skip(si as int);
        let ghost c = (count - t) as nat;
        proof {
            assert(parse_syms(x, y, c) == match parse_sym(x, y) {
                None => None,
                Some((s, ns2, cs2)) => prepend_syms(
                    seq![s],
                    parse_syms(ns2, cs2, (c - 1) as nat),
                ),
            });
        }
        if nums.len() - pi < 5 {
            proof {
                assert(x.len() < 5);
                assert(parse_sym(x, y) is None);
            }
            return None;
        }
        let line_u = nums[pi];
        let lang_u = nums[pi + 1];
        let type_u = nums[pi + 2];
        let vf_u = nums[pi + 3];
        let k_u = nums[pi + 4];
        proof {
            assert(x[0] == nums@[pi as int]);
            assert(x[1] == nums@[pi as int + 1]);
            assert(x[2] == nums@[pi as int + 2]);
            assert(x[3] == nums@[pi as int + 3]);
            assert(x[4] == nums@[pi as int + 4]);
        }
        let lang = match code_to_lang(lang_u) {
            Some(l) => l,
            None => {
                proof {
                    assert(parse_sym(x, y) is None);
                }
                return None;
            },
        };
        let sty = match code_to_type(type_u) {
            Some(ty) => ty,
            None => {
                proof {
                    assert(parse_sym(x, y) is None);
                }
                return None;
            },
        };
        if vf_u > 1 || line_u > (usize::MAX as u64) || k_u > (usize::MAX as u64) {
            proof {
                assert(parse_sym(x, y) is None);
            }
            return None;
        }
        let kk = k_u as usize;
        let vv = vf_u as usize;
        let rem = strs.len() - si;
        proof {
            assert(y.len() == rem);
        }
        if rem < 3 || rem - 3 < vv || rem - 3 - vv < kk {
            proof {
                assert(y.len() < 3 + k_u + vf_u);
                assert(parse_sym(x, y) is None);
            }
            return None;
        }
        let name = strs[si].clone();
        let file = strs[si + 1].clone();
        let signature = strs[si + 2].clone();
        let sl = strs.len();
        let mut segs: Vec<String> = Vec::new();
        let mut t2: usize = 0;
        while t2 < kk
            invariant
                0 <= t2 <= kk,
                sl == strs@.len(),
                si + 3 + kk + vv <= sl,
                y == strs.deep_view().skip(si as int),
                si <= strs@.len(),
                segs.deep_view() =~= y.subrange(3, 3 + t2 as int),
            decreases kk - t2,
        {
            let ghost pre = segs.deep_view();
            segs.push(strs[si + 3 + t2].clone());
            proof {
                assert(strs@[si + 3 + t2].deep_view() == y[3 + t2 as int]);
                assert(segs.deep_view() =~~= pre.push(y[3 + t2 as int]));
                assert(segs.deep_view() =~~= y.subrange(3, 3 + (t2 + 1) as int));
            }
            t2 += 1;
        }
        let visibility = if vv == 1 {
            Some(strs[si + 3 + kk].clone())
        } else {
            None
        };
        let node = SymbolNode {
            name,
            file,
            line: line_u as usize,
            language: lang,
            signature,
            module_segments: segs,
            symbol_type: sty,
            visibility,
        };
        let ghost sd = match parse_sym(x, y) {
            Some((s, _, _)) => s,
            None => SymbolData {
                name: Seq::empty(),
                file: Seq::empty(),
                line: 0,
                language: Language::Python,
                signature: Seq::empty(),
                module_segments: Seq::empty(),
                symbol_type: SymbolType::Function,
                visibility: None,
            },
        };
        proof {
            assert(parse_sym(x, y) is Some);
            assert(y[0] == strs@[si as int]@);
            assert(y[1] == strs@[si as int + 1]@);
            assert(y[2] == strs@[si as int + 2]@);
            if vv == 1 {
                assert(y[3 + k_u] == strs@[si + 3 + kk]@);
            }
            assert(node@.module_segments =~~= segs.deep_view());
            assert(node@ =~~= sd);
        }
        let ghost old_acc = acc;
        let i = g.add_symbol(node);
        proof {
            acc = acc.push(node@);
            assert(acc =~= g.syms_view());
            let ns2 = x.skip(5);
            let cs2 = y.skip(3 + kk as int + vv as int);
            assert(ns2 =~= nums@.skip(pi as int + 5));
            assert(cs2 =~= strs.deep_view().skip(si as int + 3 + kk as int + vv as int));
            assert(parse_sym(x, y) == Some((sd, ns2, cs2)));
            assert(parse_syms(x, y, c) == prepend_syms(
                seq![sd],
                parse_syms(ns2, cs2, (c - 1) as nat),
            ));
            assert(prepend_syms(old_acc, prepend_syms(
                seq![sd],
                parse_syms(ns2, cs2, (c - 1) as nat),
            )) == prepend_syms(acc, parse_syms(ns2, cs2, (c - 1) as nat))) by {
                match parse_syms(ns2, cs2, (c - 1) as nat) {
                    Some((a, b, cc)) => {
                        assert(old_acc + (seq![sd] + a) =~= acc + a);
                    },
                    None => {},
                }
            }
        }
        pi = pi + 5;
        si = si + 3 + kk + vv;
        t += 1;
    }
    proof {
        assert(parse_syms(
            nums@.skip(pi as int),
            strs.deep_view().skip(si as int),
            0,
        ) == Some::<(Seq<SymbolData>, Seq<u64>, Seq<Seq<char>>)>((
            Seq::empty(),
            nums@.skip(pi as int),
            strs.deep_view().skip(si as int),
        )));
        assert(acc + Seq::<SymbolData>::empty() =~= acc);
    }
    Some((pi, si))
}

/// Parses `count` relations from the streams, starting at the given
/// cursors, and records each whose endpoints are valid into `g`.
fn parse_edges_into(
    nums: &Vec<u64>,
    strs: &Vec<String>,
    pi0: usize,
    si0: usize,
    count: usize,
    g: &mut CodeGraph,
) -> (r: Option<(usize, usize)>)
    requires
        old(g).edges().len() == 0,
        old(g).wf(),
        pi0 <= nums@.len(),
        si0 <= strs@.len(),
        count <= 0xFFFF_FFFFusize,
    ensures
        final(g).nodes() == old(g).nodes(),
        final(g).wf(),
        match r {
            Some(c) => {
                &&& pi0 <= c.0 <= nums@.len()
                &&& si0 <= c.1 <= strs@.len()
                &&& match parse_edges(
                    nums@.skip(pi0 as int),
                    strs.deep_view().skip(si0 as int),
                    count as nat,
                ) {
                    Some(p) => p.1 == nums@.skip(c.0 as int) && p.2 == strs.deep_view().skip(
                        c.1 as int,
                    ) && final(g).rels_view() == keep_valid(p.0, old(g).nodes().len()),
                    None => false,
                }
            },
            None => parse_edges(
                nums@.skip(pi0 as int),
                strs.deep_view().skip(si0 as int),
                count as nat,
            ) is None,
        },
{
    let ghost nsym = g.nodes().len();
    let n = g.node_count();
    let mut pi = pi0;
    let mut si = si0;
    let mut t: usize = 0;
    let ghost mut acc: Seq<EdgeRec> = Seq::empty();
    while t < count
        invariant
            0 <= t <= count,
            count <= 0xFFFF_FFFFusize,
            pi0 <= pi <= nums@.len(),
            si0 <= si <= strs@.len(),
            n == nsym,
            nsym == g.nodes().len(),
            g.nodes() == old(g).nodes(),
            g.wf(),
            g.edges().len() <= t,
            acc.len() == t,
            g.rels_view() =~= keep_valid(acc, nsym),
            prepend_edges(
                acc,
                parse_edges(
                    nums@.skip(pi as int),
                    strs.deep_view().skip(si as int),
                    (count - t) as nat,
                ),
            ) == parse_edges(
                nums@.skip(pi0 as int),
                strs.deep_view().skip(si0 as int),
                count as nat,
            ),
        decreases count - t,
    {
        let ghost x = nums@.skip(pi as int);
        let ghost y = strs.deep_view().skip(si as int);
        let ghost c = (count - t) as nat;
        proof {
            assert(parse_edges(x, y, c) == match parse_edge(x, y) {
                None => None,
                Some((e, ns2, cs2)) => prepend_edges(
                    seq![e],
                    parse_edges(ns2, cs2, (c - 1) as nat),
                ),
            });
        }
        if nums.len() - pi < 4 {
            proof {
                assert(parse_edge(x, y) is None);
            }
            return None;
        }
        let from_u = nums[pi];
        let to_u = nums[pi + 1];
        let rel_u = nums[pi + 2];
        let line_u = nums[pi + 3];
        proof {
            assert(x[0] == nums@[pi as int]);
            assert(x[1] == nums@[pi as int + 1]);
            assert(x[2] == nums@[pi as int + 2]);
            assert(x[3] == nums@[pi as int + 3]);
        }
        let rt = match code_to_rel(rel_u) {
            Some(rt) => rt,
            None => {
                proof {
                    assert(parse_edge(x, y) is None);
                }
                return None;
            },
        };
        if line_u > (usize::MAX as u64) || strs.len() - si < 1 {
            proof {
                assert(y.len() == strs@.len() - si);
                assert(parse_edge(x, y) is None);
            }
            return None;
        }
        let expression = strs[si].clone();
        let edge = RelationEdge { relation_type: rt, line: line_u as usize, expression };
        let ghost ed = EdgeRec {
            from: from_u,
            to: to_u,
            relation_type: rt,
            line: line_u as nat,
            expression: strs@[si as int]@,
        };
        proof {
            assert(y[0] == strs@[si as int]@);
            assert(parse_edge(x, y) == Some((ed, x.skip(4), y.skip(1))));
        }
        let ghost old_acc = acc;
        let ghost old_rels = g.rels_view();
        let ghost old_edges = g.edges();
        if from_u < (n as u64) && to_u < (n as u64) {
            let from = from_u as usize;
            let to = to_u as usize;
            g.add_relation(from, to, edge);
            proof {
                assert(g.edges() == old_edges.push((from, to, edge))) by {
                    assert(old_edges.len() < 0xFFFF_FFFFusize);
                }
            }
        }
        proof {
            acc = acc.push(ed);
            assert(keep_valid(acc, nsym) == keep_valid(acc.drop_last(), nsym) + if ed.from
                < nsym && ed.to < nsym {
                seq![ed]
            } else {
                Seq::<EdgeRec>::empty()
            }) by {
                assert(acc.last() == ed);
            }
            assert(acc.drop_last() =~= old_acc);
            if ed.from < nsym && ed.to < nsym {
                assert(g.rels_view() =~~= old_rels.push(ed));
                assert(g.rels_view() =~= keep_valid(acc, nsym));
            } else {
                assert(g.rels_view() =~= keep_valid(acc, nsym));
            }
            let ns2 = x.skip(4);
            let cs2 = y.skip(1);
            assert(ns2 =~= nums@.skip(pi as int + 4));
            assert(cs2 =~= strs.deep_view().skip(si as int + 1));
            assert(parse_edges(x, y, c) == prepend_edges(
                seq![ed],
                parse_edges(ns2, cs2, (c - 1) as nat),
            ));
            assert(prepend_edges(old_acc, prepend_edges(
                seq![ed],
                parse_edges(ns2, cs2, (c - 1) as nat),
            )) == prepend_edges(acc, parse_edges(ns2, cs2, (c - 1) as nat))) by {
                match parse_edges(ns2, cs2, (c - 1) as nat) {
                    Some((a, b, cc)) => {
                        assert(old_acc + (seq![ed] + a) =~= acc + a);
                    },
                    None => {},
                }
            }
        }
        pi = pi + 4;
        si = si + 1;
        t += 1;
    }
    proof {
        assert(parse_edges(
            nums@.skip(pi as int),
            strs.deep_view().skip(si as int),
            0,
        ) == Some::<(Seq<EdgeRec>, Seq<u64>, Seq<Seq<char>>)>((
            Seq::empty(),
            nums@.skip(pi as int),
            strs.deep_view().skip(si as int),
        )));
        assert(acc + Seq::<EdgeRec>::empty() =~= acc);
    }
    Some((pi, si))
}

proof fn lemma_decode_chain(
    ss: Seq<SymbolData>,
    es: Seq<EdgeRec>,
    strs_deep: Seq<Seq<char>>,
    nums_seq: Seq<u64>,
)
    requires
        syms_ok(ss),
        edges_ok(es),
        ss.len() <= 0xFFFF_FFFFnat,
        es.len() <= 0xFFFF_FFFFnat,
        strs_deep == enc_strs(ss, es),
        nums_seq == enc_nums(ss, es),
    ensures
        nums_seq.len() >= 1,
        nums_seq[0] == ss.len() as u64,
        parse_syms(nums_seq.skip(1), strs_deep, ss.len()) == Some(
            (ss, seq![es.len() as u64] + edges_nums(es), edges_strs(es)),
        ),
        (seq![es.len() as u64] + edges_nums(es)).len() >= 1,
        (seq![es.len() as u64] + edges_nums(es))[0] == es.len() as u64,
        parse_edges(
            (seq![es.len() as u64] + edges_nums(es)).skip(1),
            edges_strs(es),
            es.len(),
        ) == Some((es, Seq::<u64>::empty(), Seq::<Seq<char>>::empty())),
{
    assert(nums_seq.skip(1) =~= syms_nums(ss) + (seq![es.len() as u64] + edges_nums(es)));
    assert(strs_deep =~= syms_strs(ss) + edges_strs(es));
    lemma_parse_syms_enc(ss, seq![es.len() as u64] + edges_nums(es), edges_strs(es));
    assert((seq![es.len() as u64] + edges_nums(es)).skip(1) =~= edges_nums(es)
        + Seq::<u64>::empty());
    assert(edges_strs(es) =~= edges_strs(es) + Seq::<Seq<char>>::empty());
    lemma_parse_edges_enc(es, Seq::empty(), Seq::empty());
}

/// The hypothesis under which decoding owes the original store back: the
/// bytes are the encoding of representable contents with valid endpoints.
pub open spec fn encodes(data: Seq<u8>, ss: Seq<SymbolData>, es: Seq<EdgeRec>) -> bool {
    &&& syms_ok(ss)
    &&& edges_ok(es)
    &&& ss.len() <= 0xFFFF_FFFFnat
    &&& es.len() <= 0xFFFF_FFFFnat
    &&& endpoints_ok(es, ss.len())
    &&& data == wire_of(enc_strs(ss, es), enc_nums(ss, es))
}

impl CodeGraph {
    /// Decodes a store from bytes produced by `serialize`: whenever the
    /// bytes encode representable contents, exactly those contents come
    /// back.
    pub fn deserialize(data: &[u8]) -> (r: Result<CodeGraph, CodecError>)
        ensures
            r matches Ok(g) ==> g.wf(),
            forall|ss: Seq<SymbolData>, es: Seq<EdgeRec>|
                #[trigger] encodes(data@, ss, es) ==> (r matches Ok(g) && g.syms_view() == ss
                    && g.rels_view() == es),
    {
        let (strs, nums) = match bc_decode(data) {
            Ok(p) => p,
            Err(e) => {
                proof {
                    assert forall|ss: Seq<SymbolData>, es: Seq<EdgeRec>|
                        !#[trigger] encodes(data@, ss, es) by {
                        if encodes(data@, ss, es) {
                            assert(data@ == wire_of(enc_strs(ss, es), enc_nums(ss, es)));
                        }
                    }
                }
                return Err(e);
            },
        };
        proof {
            assert forall|ss: Seq<SymbolData>, es: Seq<EdgeRec>|
                #[trigger] encodes(data@, ss, es) implies strs.deep_view() == enc_strs(ss, es)
                && nums@ == enc_nums(ss, es) by {
                assert(data@ == wire_of(enc_strs(ss, es), enc_nums(ss, es)));
            }
        }
        if nums.len() < 1 {
            proof {
                assert forall|ss: Seq<SymbolData>, es: Seq<EdgeRec>|
                    !#[trigger] encodes(data@, ss, es) by {
                    if encodes(data@, ss, es) {
                        lemma_decode_chain(ss, es, strs.deep_view(), nums@);
                    }
                }
            }
            return Err(CodecError::MalformedData);
        }
        let n_u = nums[0];
        if n_u > 0xFFFF_FFFFu64 {
            proof {
                assert forall|ss: Seq<SymbolData>, es: Seq<EdgeRec>|
                    !#[trigger] encodes(data@, ss, es) by {
                    if encodes(data@, ss, es) {
                        lemma_decode_chain(ss, es, strs.deep_view(), nums@);
                    }
                }
            }
            return Err(CodecError::MalformedData);
        }
        let n = n_u as usize;
        let mut g = CodeGraph::new();
        let parsed = parse_syms_into(&nums, &strs, 1, 0, n, &mut g);
        proof {
            assert(strs.deep_view().skip(0int) =~= strs.deep_view());
        }
        let (pi, si) = match parsed {
            Some(c) => c,
            None => {
                proof {
                    assert forall|ss: Seq<SymbolData>, es: Seq<EdgeRec>|
                        !#[trigger] encodes(data@, ss, es) by {
                        if encodes(data@, ss, es) {
                            lemma_decode_chain(ss, es, strs.deep_view(), nums@);
                            assert(n as nat == ss.len());
                        }
                    }
                }
                return Err(CodecError::MalformedData);
            },
        };
        if pi >= nums.len() {
            proof {
                assert forall|ss: Seq<SymbolData>, es: Seq<EdgeRec>|
                    !#[trigger] encodes(data@, ss, es) by {
                    if encodes(data@, ss, es) {
                        lemma_decode_chain(ss, es, strs.deep_view(), nums@);
                        assert(n as nat == ss.len());
                        assert(nums@.skip(pi as int) =~= seq![es.len() as u64] + edges_nums(es));
                    }
                }
            }
            return Err(CodecError::MalformedData);
        }
        let m_u = nums[pi];
        if m_u > 0xFFFF_FFFFu64 {
            proof {
                assert forall|ss: Seq<SymbolData>, es: Seq<EdgeRec>|
                    !#[trigger] encodes(data@, ss, es) by {
                    if encodes(data@, ss, es) {
                        lemma_decode_chain(ss, es, strs.deep_view(), nums@);
                        assert(n as nat == ss.len());
                        assert(nums@.skip(pi as int) =~= seq![es.len() as u64] + edges_nums(es));
                        assert(nums@[pi as int] == es.len() as u64);
                    }
                }
            }
            return Err(CodecError::MalformedData);
        }
        let m = m_u as usize;
        let parsed2 = parse_edges_into(&nums, &strs, pi + 1, si, m, &mut g);
        let (pi2, si2) = match parsed2 {
            Some(c) => c,
            None => {
                proof {
                    assert forall|ss: Seq<SymbolData>, es: Seq<EdgeRec>|
                        !#[trigger] encodes(data@, ss, es) by {
                        if encodes(data@, ss, es) {
                            lemma_decode_chain(ss, es, strs.deep_view(), nums@);
                            assert(n as nat == ss.len());
                            assert(nums@.skip(pi as int) =~= seq![es.len() as u64] + edges_nums(
                                es,
                            ));
                            assert(nums@[pi as int] == es.len() as u64);
                            assert(m as nat == es.len());
                            assert(nums@.skip(pi as int + 1) =~= (seq![es.len() as u64]
                                + edges_nums(es)).skip(1));
                        }
                    }
                }
                return Err(CodecError::MalformedData);
            },
        };
        if pi2 != nums.len() || si2 != strs.len() {
            proof {
                assert forall|ss: Seq<SymbolData>, es: Seq<EdgeRec>|
                    !#[trigger] encodes(data@, ss, es) by {
                    if encodes(data@, ss, es) {
                        lemma_decode_chain(ss, es, strs.deep_view(), nums@);
                        assert(n as nat == ss.len());
                        assert(nums@.skip(pi as int) =~= seq![es.len() as u64] + edges_nums(es));
                        assert(nums@[pi as int] == es.len() as u64);
                        assert(m as nat == es.len());
                        assert(nums@.skip(pi as int + 1) =~= (seq![es.len() as u64] + edges_nums(
                            es,
                        )).skip(1));
                        assert(nums@.skip(pi2 as int) =~= Seq::<u64>::empty());
                        assert(strs.deep_view().skip(si2 as int) =~= Seq::<Seq<char>>::empty());
                        assert(pi2 == nums@.len());
                        assert(si2 == strs@.len());
                    }
                }
            }
            return Err(CodecError::MalformedData);
        }
        proof {
            assert forall|ss: Seq<SymbolData>, es: Seq<EdgeRec>|
                #[trigger] encodes(data@, ss, es) implies g.syms_view() == ss && g.rels_view()
                == es by {
                lemma_decode_chain(ss, es, strs.deep_view(), nums@);
                assert(n as nat == ss.len());
                assert(g.syms_view() == ss);
                assert(nums@.skip(pi as int) =~= seq![es.len() as u64] + edges_nums(es));
                assert(nums@[pi as int] == es.len() as u64);
                assert(m as nat == es.len());
                assert(nums@.skip(pi as int + 1) =~= (seq![es.len() as u64] + edges_nums(
                    es,
                )).skip(1));
                assert(g.rels_view() == keep_valid(es, ss.len()));
                lemma_keep_valid_all(es, ss.len());
            }
        }
        Ok(g)
    }
}

/// The (name, file, line) triple of each symbol, in order.
pub open spec fn key_triples(ss: Seq<SymbolData>) -> Seq<(Seq<char>, Seq<char>, nat)> {
    Seq::new(ss.len(), |i: int| (ss[i].name, ss[i].file, ss[i].line))
}

/// Round-trip law: parsing the encoding of any representable store contents
/// returns contents with the same multiset of (name, file, line) triples and
/// the same relation count.
pub proof fn lemma_round_trip_preserves(ss: Seq<SymbolData>, es: Seq<EdgeRec>)
    requires
        syms_ok(ss),
        edges_ok(es),
        ss.len() <= 0xFFFF_FFFFnat,
        es.len() <= 0xFFFF_FFFFnat,
    ensures
        match dec_spec(enc_strs(ss, es), enc_nums(ss, es)) {
            Some(p) => key_triples(p.0).to_multiset() == key_triples(ss).to_multiset()
                && p.1.len() == es.len(),
            None => false,
        },
{
    lemma_dec_enc(ss, es);
}

} // verus!
