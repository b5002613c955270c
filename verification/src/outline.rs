//! The editor outline of a module.
//!
//! The outline is hierarchical: nodes with their callables and nested
//! declarations, `data` types with their fields or variants, constants and
//! features. Ranges are editor positions: 0-based lines and UTF-16
//! characters.

use crate::ast::{BodyMember, DataBody, Decl, DeclKind, Field, Item, Module, Variant};
use crate::convert::{position_of, span_to_range, Position, Range};
use crate::parser::{parse, parsed_from};
use crate::span::{line_starts_of, LineIndex, Span};
use vstd::prelude::*;
use vstd::string::StringSliceAdditionalSpecFns;

verus! {

/// What an outline entry stands for.
#[derive(Debug, Clone, Copy, PartialEq, Eq, Structural)]
pub enum OutlineKind {
    /// A structural node.
    Namespace,
    /// A callable.
    Method,
    /// A `data` type.
    Class,
    /// A record field.
    Field,
    /// A union variant.
    EnumMember,
    /// A feature.
    Event,
    /// A constant.
    Constant,
}

/// One outline entry: its name and kind, the range of the whole construct,
/// the range of its name, and its children (absent when it has none).
#[derive(Debug)]
pub struct DocumentSymbol {
    /// The entry's name.
    pub name: String,
    /// What it stands for.
    pub kind: OutlineKind,
    /// The range of the whole construct.
    pub range: Range,
    /// The range of its name.
    pub selection_range: Range,
    /// Its members, or nothing when it has none.
    pub children: Option<Vec<DocumentSymbol>>,
}

/// An outline entry as plain values.
pub enum OutlineView {
    /// Name, kind, range, name range, and children.
    Entry(Seq<char>, OutlineKind, Range, Range, Option<Seq<OutlineView>>),
}

/// The plain view of an outline entry.
pub open spec fn outline_view(s: DocumentSymbol) -> OutlineView
    decreases s,
{
    OutlineView::Entry(
        s.name@,
        s.kind,
        s.range,
        s.selection_range,
        match s.children {
            Some(cs) => Some(outline_views(cs@)),
            None => None,
        },
    )
}

/// The plain views of outline entries.
pub open spec fn outline_views(ss: Seq<DocumentSymbol>) -> Seq<OutlineView>
    decreases ss,
{
    if ss.len() == 0 {
        seq![]
    } else {
        outline_views(ss.subrange(0, ss.len() - 1)).push(outline_view(ss[ss.len() - 1]))
    }
}

proof fn lemma_outline_push(ss: Seq<DocumentSymbol>, x: DocumentSymbol)
    ensures
        outline_views(ss.push(x)) == outline_views(ss).push(outline_view(x)),
{
    let t = ss.push(x);
    assert(t.subrange(0, t.len() - 1) =~= ss);
}

/// The editor range of a span of `bytes`.
pub open spec fn range_of(bytes: Seq<u8>, s: Span) -> Range {
    Range { start: position_of(bytes, s.start as int), end: position_of(bytes, s.end as int) }
}

/// An outline entry: `full` the whole construct, `name` its name.
pub open spec fn entry(bytes: Seq<u8>, name: Seq<char>, kind: OutlineKind, full: Span, name_span: Span, children: Seq<OutlineView>) -> OutlineView {
    OutlineView::Entry(name, kind, range_of(bytes, full), range_of(bytes, name_span), if children.len() > 0 {
        Some(children)
    } else {
        None
    })
}

/// The entries of record fields.
pub open spec fn field_entries(bytes: Seq<u8>, fs: Seq<Field>) -> Seq<OutlineView> {
    fs.map_values(|f: Field| entry(bytes, f.name.name@, OutlineKind::Field, f.span, f.name.span, seq![]))
}

/// The entries of union variants.
pub open spec fn variant_entries(bytes: Seq<u8>, vs: Seq<Variant>) -> Seq<OutlineView> {
    vs.map_values(|v: Variant| entry(bytes, v.name.name@, OutlineKind::EnumMember, v.span, v.name.span, seq![]))
}

/// The entry of a declaration: a node with its callables and nested
/// declarations, a `data` type with its fields or variants, a constant.
pub open spec fn decl_entry(bytes: Seq<u8>, d: Decl) -> OutlineView
    decreases d,
{
    match d.kind {
        DeclKind::Person(n) => entry(bytes, n.name.name@, OutlineKind::Namespace, d.span, n.name.span, match n.body {
            Some(ms) => member_entries(bytes, ms@),
            None => seq![],
        }),
        DeclKind::System(n) => entry(bytes, n.name.name@, OutlineKind::Namespace, d.span, n.name.span, match n.body {
            Some(ms) => member_entries(bytes, ms@),
            None => seq![],
        }),
        DeclKind::Container(n) => entry(bytes, n.name.name@, OutlineKind::Namespace, d.span, n.name.span, match n.body {
            Some(ms) => member_entries(bytes, ms@),
            None => seq![],
        }),
        DeclKind::Component(n) => entry(bytes, n.name.name@, OutlineKind::Namespace, d.span, n.name.span, match n.body {
            Some(ms) => member_entries(bytes, ms@),
            None => seq![],
        }),
        DeclKind::Data(data) => entry(bytes, data.name.name@, OutlineKind::Class, d.span, data.name.span, match data.body {
            DataBody::Record(fs) => field_entries(bytes, fs@),
            DataBody::Union(vs) => variant_entries(bytes, vs@),
            DataBody::BlackBox => seq![],
        }),
        DeclKind::Constant(c) => entry(bytes, c.name.name@, OutlineKind::Constant, d.span, c.name.span, seq![]),
    }
}

/// The entries of a node's body members, in order.
pub open spec fn member_entries(bytes: Seq<u8>, ms: Seq<BodyMember>) -> Seq<OutlineView>
    decreases ms,
{
    if ms.len() == 0 {
        seq![]
    } else {
        member_entries(bytes, ms.subrange(0, ms.len() - 1)).push(match ms[ms.len() - 1] {
            BodyMember::Callable(c) => entry(bytes, c.name.name@, OutlineKind::Method, c.span, c.name.span, seq![]),
            BodyMember::Decl(d) => decl_entry(bytes, d),
        })
    }
}

/// The entries of a module's items, in order.
pub open spec fn item_entries(bytes: Seq<u8>, items: Seq<Item>) -> Seq<OutlineView> {
    items.map_values(|i: Item| match i {
        Item::Decl(d) => decl_entry(bytes, d),
        Item::Feature(f) => entry(bytes, f.name.name@, OutlineKind::Event, f.span, f.name.span, seq![]),
    })
}

/// Whether `index` indexes `src`.
pub open spec fn indexes(index: LineIndex, src: &str) -> bool {
    index.starts() == line_starts_of(src.spec_bytes(), src.spec_bytes().len()) && index.source_len()
        == src.spec_bytes().len()
}

/// Builds an outline entry.
fn symbol(name: &String, kind: OutlineKind, full: Span, name_span: Span, children: Vec<DocumentSymbol>, src: &str, index: &LineIndex) -> (s: DocumentSymbol)
    requires
        indexes(*index, src),
    ensures
        outline_view(s) == entry(src.spec_bytes(), name@, kind, full, name_span, outline_views(children@)),
{
    let n = children.len();
    let ghost cv = outline_views(children@);
    assert(cv.len() == children@.len()) by {
        lemma_outline_len(children@);
    }
    DocumentSymbol {
        name: name.clone(),
        kind,
        range: span_to_range(src, index, full),
        selection_range: span_to_range(src, index, name_span),
        children: if n > 0 {
            Some(children)
        } else {
            None
        },
    }
}

proof fn lemma_outline_len(ss: Seq<DocumentSymbol>)
    ensures
        outline_views(ss).len() == ss.len(),
    decreases ss.len(),
{
    if ss.len() > 0 {
        lemma_outline_len(ss.subrange(0, ss.len() - 1));
    }
}

/// The entry of a declaration (see [`decl_entry`]).
fn decl_symbol(decl: &Decl, src: &str, index: &LineIndex) -> (s: DocumentSymbol)
    requires
        indexes(*index, src),
    ensures
        outline_view(s) == decl_entry(src.spec_bytes(), *decl),
    decreases decl,
{
    let ghost bytes = src.spec_bytes();
    match &decl.kind {
        DeclKind::Person(node) | DeclKind::System(node) | DeclKind::Container(node) | DeclKind::Component(node) => {
            proof {
                if decl.kind is Person {
                    assert(decreases_to!(decl.kind => decl.kind->Person_0));
                } else if decl.kind is System {
                    assert(decreases_to!(decl.kind => decl.kind->System_0));
                } else if decl.kind is Container {
                    assert(decreases_to!(decl.kind => decl.kind->Container_0));
                } else {
                    assert(decreases_to!(decl.kind => decl.kind->Component_0));
                }
            }
            let mut children: Vec<DocumentSymbol> = Vec::new();
            match &node.body {
                Some(ms) => {
                    proof {
                        assert(decreases_to!(*node => node.body));
                        assert(decreases_to!(node.body => node.body->0));
                    }
                    let mut i: usize = 0;
                    assert(ms@.subrange(0, 0) =~= seq![]);
                    assert(outline_views(children@) =~= seq![]);
                    while i < ms.len()
                        invariant
                            i <= ms@.len(),
                            indexes(*index, src),
                            bytes == src.spec_bytes(),
                            node.body == Some(*ms),
                            decreases_to!(*decl => *ms),
                            outline_views(children@) == member_entries(bytes, ms@.subrange(0, i as int)),
                        decreases ms@.len() - i,
                    {
                        let ghost t = ms@.subrange(0, i + 1);
                        assert(t.subrange(0, t.len() - 1) =~= ms@.subrange(0, i as int));
                        let child = match &ms[i] {
                            BodyMember::Callable(c) => symbol(&c.name.name, OutlineKind::Method, c.span, c.name.span, Vec::new(), src, index),
                            BodyMember::Decl(inner) => {
                                proof {
                                    assert(decreases_to!(*ms => ms@));
                                    assert(decreases_to!(ms@ => ms@[i as int]));
                                    assert(decreases_to!(ms@[i as int] => *inner));
                                }
                                decl_symbol(inner, src, index)
                            },
                        };
                        proof {
                            assert(outline_views(Seq::<DocumentSymbol>::empty()) =~= seq![]);
                            lemma_outline_push(children@, child);
                        }
                        children.push(child);
                        i = i + 1;
                    }
                    assert(ms@.subrange(0, ms@.len() as int) =~= ms@);
                },
                None => {
                    assert(outline_views(children@) =~= seq![]);
                },
            }
            symbol(&node.name.name, OutlineKind::Namespace, decl.span, node.name.span, children, src, index)
        },
        DeclKind::Data(data) => {
            let mut children: Vec<DocumentSymbol> = Vec::new();
            match &data.body {
                DataBody::Record(fs) => {
                    let mut i: usize = 0;
                    assert(outline_views(children@) =~= field_entries(bytes, fs@.take(0)));
                    while i < fs.len()
                        invariant
                            i <= fs@.len(),
                            indexes(*index, src),
                            bytes == src.spec_bytes(),
                            outline_views(children@) == field_entries(bytes, fs@.take(i as int)),
                        decreases fs@.len() - i,
                    {
                        let f = &fs[i];
                        let child = symbol(&f.name.name, OutlineKind::Field, f.span, f.name.span, Vec::new(), src, index);
                        proof {
                            assert(outline_views(Seq::<DocumentSymbol>::empty()) =~= seq![]);
                            lemma_outline_push(children@, child);
                        }
                        children.push(child);
                        assert(field_entries(bytes, fs@.take(i + 1)) =~= field_entries(bytes, fs@.take(i as int)).push(
                            outline_view(child),
                        ));
                        i = i + 1;
                    }
                    assert(fs@.take(fs@.len() as int) =~= fs@);
                },
                DataBody::Union(vs) => {
                    let mut i: usize = 0;
                    assert(outline_views(children@) =~= variant_entries(bytes, vs@.take(0)));
                    while i < vs.len()
                        invariant
                            i <= vs@.len(),
                            indexes(*index, src),
                            bytes == src.spec_bytes(),
                            outline_views(children@) == variant_entries(bytes, vs@.take(i as int)),
                        decreases vs@.len() - i,
                    {
                        let v = &vs[i];
                        let child = symbol(&v.name.name, OutlineKind::EnumMember, v.span, v.name.span, Vec::new(), src, index);
                        proof {
                            assert(outline_views(Seq::<DocumentSymbol>::empty()) =~= seq![]);
                            lemma_outline_push(children@, child);
                        }
                        children.push(child);
                        assert(variant_entries(bytes, vs@.take(i + 1)) =~= variant_entries(bytes, vs@.take(i as int)).push(
                            outline_view(child),
                        ));
                        i = i + 1;
                    }
                    assert(vs@.take(vs@.len() as int) =~= vs@);
                },
                DataBody::BlackBox => {
                    assert(outline_views(children@) =~= seq![]);
                },
            }
            symbol(&data.name.name, OutlineKind::Class, decl.span, data.name.span, children, src, index)
        },
        DeclKind::Constant(c) => {
            let s = symbol(&c.name.name, OutlineKind::Constant, decl.span, c.name.span, Vec::new(), src, index);
            assert(outline_views(Seq::<DocumentSymbol>::empty()) =~= seq![]);
            s
        },
    }
}

/// The outline of a parsed module of the source `src`.
#[verifier::rlimit(30)]
pub fn module_outline(module: &Module, src: &str, index: &LineIndex) -> (r: Vec<DocumentSymbol>)
    requires
        indexes(*index, src),
    ensures
        outline_views(r@) == item_entries(src.spec_bytes(), module.items@),
{
    let mut out: Vec<DocumentSymbol> = Vec::new();
    let mut i: usize = 0;
    assert(outline_views(out@) =~= item_entries(src.spec_bytes(), module.items@.take(0)));
    while i < module.items.len()
        invariant
            i <= module.items@.len(),
            indexes(*index, src),
            outline_views(out@) == item_entries(src.spec_bytes(), module.items@.take(i as int)),
        decreases module.items@.len() - i,
    {
        let s = match &module.items[i] {
            Item::Decl(d) => decl_symbol(d, src, index),
            Item::Feature(f) => {
                let s = symbol(&f.name.name, OutlineKind::Event, f.span, f.name.span, Vec::new(), src, index);
                assert(outline_views(Seq::<DocumentSymbol>::empty()) =~= seq![]);
                s
            },
        };
        proof {
            lemma_outline_push(out@, s);
        }
        out.push(s);
        assert(item_entries(src.spec_bytes(), module.items@.take(i + 1)) =~= item_entries(
            src.spec_bytes(),
            module.items@.take(i as int),
        ).push(outline_view(s)));
        i = i + 1;
    }
    assert(module.items@.take(module.items@.len() as int) =~= module.items@);
    out
}

/// The outline of `src`: the entries of the module it parses to.
pub fn document_symbols(src: &str) -> (r: Vec<DocumentSymbol>)
    requires
        src.spec_bytes().len() < u32::MAX,
    ensures
        exists|m: Module| parsed_from(src.spec_bytes(), m) && outline_views(r@) == item_entries(src.spec_bytes(), m.items@),
{
    let module = parse(src).ast;
    let index = LineIndex::new(src);
    module_outline(&module, src, &index)
}

} // verus!
