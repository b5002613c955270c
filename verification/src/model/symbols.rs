//! Module symbol tables and the workspace index.
//!
//! A module's symbols are its declared nodes (at any nesting depth), its
//! `data` types with their hoisted record variants, and its constants, each
//! named `module::Name`. The workspace indexes every module's symbols by
//! fully-qualified name; cross-module references resolve only to `public`
//! symbols.

use crate::ast::{BodyMember, Callable, DataBody, Decl, DeclKind, DocBlock, Field, Ident, Item, Module, Node, NodeKind, Param, Variant};
use crate::model::graph::{render_type, type_text};
use crate::model::arch::joined;
use crate::span::Span;
use vstd::prelude::*;
use vstd::string::{StrSliceExecFns, StringExecFns};

verus! {

/// What kind of declaration introduced a symbol.
#[derive(Debug, Clone, Copy, PartialEq, Eq, Structural)]
pub enum SymbolKind {
    Person,
    System,
    Container,
    Component,
    Data,
    Constant,
}

/// The keyword that introduces a symbol kind.
pub open spec fn symbol_keyword(k: SymbolKind) -> Seq<char> {
    match k {
        SymbolKind::Person => "person"@,
        SymbolKind::System => "system"@,
        SymbolKind::Container => "container"@,
        SymbolKind::Component => "component"@,
        SymbolKind::Data => "data"@,
        SymbolKind::Constant => "constant"@,
    }
}

impl SymbolKind {
    /// The keyword that introduces this kind of symbol.
    pub fn keyword(self) -> (s: &'static str)
        ensures
            s@ == symbol_keyword(self),
    {
        match self {
            SymbolKind::Person => "person",
            SymbolKind::System => "system",
            SymbolKind::Container => "container",
            SymbolKind::Component => "component",
            SymbolKind::Data => "data",
            SymbolKind::Constant => "constant",
        }
    }
}

/// The symbol kind of a structural node kind.
pub open spec fn node_symbol_kind(k: NodeKind) -> SymbolKind {
    match k {
        NodeKind::Person => SymbolKind::Person,
        NodeKind::System => SymbolKind::System,
        NodeKind::Container => SymbolKind::Container,
        NodeKind::Component => SymbolKind::Component,
    }
}

/// One declared, addressable name of a module.
#[derive(Debug, PartialEq, Eq)]
pub struct Symbol {
    /// The bare declared name (`Ledger`).
    pub name: String,
    /// The fully-qualified name (`module::Ledger`).
    pub fqn: String,
    /// What kind of declaration introduced it.
    pub kind: SymbolKind,
    /// Whether the declaration is `public`.
    pub is_public: bool,
    /// Span of the declaration's name.
    pub span: Span,
}

impl Clone for Symbol {
    fn clone(&self) -> (s: Self)
        ensures
            s == *self,
    {
        Symbol {
            name: self.name.clone(),
            fqn: self.fqn.clone(),
            kind: self.kind,
            is_public: self.is_public,
            span: self.span,
        }
    }
}

/// A symbol as plain values: name, FQN, kind, visibility, span.
pub type SymView = (Seq<char>, Seq<char>, SymbolKind, bool, Span);

/// The plain-value view of a symbol.
pub open spec fn sym_view(s: Symbol) -> SymView {
    (s.name@, s.fqn@, s.kind, s.is_public, s.span)
}

/// The plain-value views of symbols.
pub open spec fn sym_views(ss: Seq<Symbol>) -> Seq<SymView> {
    ss.map_values(|s: Symbol| sym_view(s))
}

/// A name's FQN in `module`: `module::name`, or the bare name for an
/// anonymous module.
pub open spec fn qualified(module: Seq<char>, name: Seq<char>) -> Seq<char> {
    if module.len() == 0 {
        name
    } else {
        module + "::"@ + name
    }
}

/// `name`'s FQN in `module`.
pub fn qualify(module: &str, name: &str) -> (r: String)
    ensures
        r@ == qualified(module@, name@),
{
    if module.unicode_len() == 0 {
        String::from_str(name)
    } else {
        let mut r = String::from_str(module);
        r.append("::");
        r.append(name);
        r
    }
}

/// The symbol a declaration name introduces.
pub open spec fn sym_of(module: Seq<char>, id: Ident, kind: SymbolKind, is_public: bool) -> SymView {
    (id.name@, qualified(module, id.name@), kind, is_public, id.span)
}

/// The symbols of the hoisted record variants of a union, which share its
/// visibility; a bare `| Name` variant names an existing type.
pub open spec fn variant_syms(module: Seq<char>, vs: Seq<Variant>, is_public: bool) -> Seq<SymView>
    decreases vs.len(),
{
    if vs.len() == 0 {
        seq![]
    } else {
        variant_syms(module, vs.drop_last(), is_public) + if vs.last().record is Some {
            seq![sym_of(module, vs.last().name, SymbolKind::Data, is_public)]
        } else {
            seq![]
        }
    }
}

/// The symbols a declaration introduces, in declaration order: a node's
/// name then the declarations nested in its body; a `data` type's name then
/// its hoisted record variants; a constant's name.
pub open spec fn decl_syms(module: Seq<char>, d: Decl) -> Seq<SymView>
    decreases d,
{
    match d.kind {
        DeclKind::Person(n) => node_syms(module, n, d.is_public),
        DeclKind::System(n) => node_syms(module, n, d.is_public),
        DeclKind::Container(n) => node_syms(module, n, d.is_public),
        DeclKind::Component(n) => node_syms(module, n, d.is_public),
        DeclKind::Data(data) => seq![sym_of(module, data.name, SymbolKind::Data, d.is_public)] + match data.body {
            DataBody::Union(vs) => variant_syms(module, vs@, d.is_public),
            _ => seq![],
        },
        DeclKind::Constant(c) => seq![sym_of(module, c.name, SymbolKind::Constant, d.is_public)],
    }
}

/// The symbols of a node and the declarations nested in its body.
pub open spec fn node_syms(module: Seq<char>, n: Node, is_public: bool) -> Seq<SymView>
    decreases n,
{
    seq![sym_of(module, n.name, node_symbol_kind(n.kind), is_public)] + match n.body {
        Some(ms) => members_syms(module, ms@),
        None => seq![],
    }
}

/// The symbols of the declarations among body members, in order.
pub open spec fn members_syms(module: Seq<char>, ms: Seq<BodyMember>) -> Seq<SymView>
    decreases ms,
{
    if ms.len() == 0 {
        seq![]
    } else {
        members_syms(module, ms.subrange(0, ms.len() - 1)) + match ms[ms.len() - 1] {
            BodyMember::Decl(d) => decl_syms(module, d),
            BodyMember::Callable(_) => seq![],
        }
    }
}

/// The symbols of a module's declarations, in order; features add none.
pub open spec fn items_syms(module: Seq<char>, items: Seq<Item>) -> Seq<SymView>
    decreases items.len(),
{
    if items.len() == 0 {
        seq![]
    } else {
        items_syms(module, items.drop_last()) + match items.last() {
            Item::Decl(d) => decl_syms(module, d),
            Item::Feature(_) => seq![],
        }
    }
}

/// The index of the last entry of `ss` whose name (`by_fqn` false) or FQN
/// (`by_fqn` true) is `key`, or `-1`.
pub open spec fn last_sym(ss: Seq<SymView>, key: Seq<char>, by_fqn: bool) -> int
    decreases ss.len(),
{
    if ss.len() == 0 {
        -1
    } else if (if by_fqn { ss.last().1 } else { ss.last().0 }) == key {
        ss.len() - 1
    } else {
        last_sym(ss.drop_last(), key, by_fqn)
    }
}

/// `last_sym` is `-1` or the last index holding `key`.
pub proof fn lemma_last_sym(ss: Seq<SymView>, key: Seq<char>, by_fqn: bool)
    ensures
        -1 <= last_sym(ss, key, by_fqn) < ss.len(),
        last_sym(ss, key, by_fqn) >= 0 ==> (if by_fqn { ss[last_sym(ss, key, by_fqn)].1 } else {
            ss[last_sym(ss, key, by_fqn)].0
        }) == key,
        forall|i: int|
            0 <= i < ss.len() && (if by_fqn { ss[i].1 } else { ss[i].0 }) == key ==> last_sym(ss, key, by_fqn) >= i,
    decreases ss.len(),
{
    if ss.len() > 0 {
        lemma_last_sym(ss.drop_last(), key, by_fqn);
        assert forall|i: int|
            0 <= i < ss.len() && (if by_fqn { ss[i].1 } else { ss[i].0 }) == key implies last_sym(
            ss,
            key,
            by_fqn,
        ) >= i by {
            if i < ss.len() - 1 {
                assert(ss.drop_last()[i] == ss[i]);
            }
        }
    }
}

/// Appends `s`.
proof fn lemma_views_push(ss: Seq<Symbol>, s: Symbol)
    ensures
        sym_views(ss.push(s)) == sym_views(ss).push(sym_view(s)),
{
    assert(sym_views(ss.push(s)) =~= sym_views(ss).push(sym_view(s)));
}

/// Appends the symbol of `id`.
fn push_sym(out: &mut Vec<Symbol>, module: &str, id: &Ident, kind: SymbolKind, is_public: bool)
    ensures
        sym_views(final(out)@) == sym_views(old(out)@).push(sym_of(module@, *id, kind, is_public)),
{
    let s = Symbol { name: id.name.clone(), fqn: qualify(module, id.name.as_str()), kind, is_public, span: id.span };
    proof {
        lemma_views_push(out@, s);
    }
    out.push(s);
}

/// Appends the symbols of a declaration.
fn collect_decl(out: &mut Vec<Symbol>, module: &str, decl: &Decl)
    ensures
        sym_views(final(out)@) == sym_views(old(out)@) + decl_syms(module@, *decl),
    decreases decl,
{
    let ghost o0 = sym_views(out@);
    match &decl.kind {
        DeclKind::Person(node) | DeclKind::System(node) | DeclKind::Container(node)
        | DeclKind::Component(node) => {
            proof {
                if decl.kind is Person {
                    assert(decreases_to!(decl.kind => decl.kind->Person_0));
                } else if decl.kind is System {
                    assert(decreases_to!(decl.kind => decl.kind->System_0));
                } else if decl.kind is Container {
                    assert(decreases_to!(decl.kind => decl.kind->Container_0));
                } else {
                    assert(decreases_to!(decl.kind => decl.kind->Component_0));
                }
            }
            collect_node(out, module, node, decl.is_public);
        },
        DeclKind::Data(data) => {
            push_sym(out, module, &data.name, SymbolKind::Data, decl.is_public);
            let ghost o1 = sym_views(out@);
            if let DataBody::Union(vs) = &data.body {
                let mut i: usize = 0;
                assert(vs@.take(0) =~= seq![]);
                assert(o1 + variant_syms(module@, vs@.take(0), decl.is_public) =~= o1);
                while i < vs.len()
                    invariant
                        i <= vs@.len(),
                        sym_views(out@) == o1 + variant_syms(module@, vs@.take(i as int), decl.is_public),
                    decreases vs@.len() - i,
                {
                    assert(vs@.take(i + 1).drop_last() =~= vs@.take(i as int));
                    let ghost before = sym_views(out@);
                    if vs[i].record.is_some() {
                        push_sym(out, module, &vs[i].name, SymbolKind::Data, decl.is_public);
                    }
                    assert(sym_views(out@) =~= o1 + variant_syms(module@, vs@.take(i + 1), decl.is_public));
                    i = i + 1;
                }
                assert(vs@.take(vs@.len() as int) =~= vs@);
                assert(sym_views(out@) =~= o0 + decl_syms(module@, *decl));
            } else {
                assert(sym_views(out@) =~= o0 + decl_syms(module@, *decl));
            }
        },
        DeclKind::Constant(c) => {
            push_sym(out, module, &c.name, SymbolKind::Constant, decl.is_public);
            assert(sym_views(out@) =~= o0 + decl_syms(module@, *decl));
        },
    }
}

/// Appends the symbols of a node and of the declarations nested in it.
fn collect_node(out: &mut Vec<Symbol>, module: &str, node: &Node, is_public: bool)
    ensures
        sym_views(final(out)@) == sym_views(old(out)@) + node_syms(module@, *node, is_public),
    decreases node,
{
    let ghost o0 = sym_views(out@);
    push_sym(out, module, &node.name, node_kind_symbol(node.kind), is_public);
    let ghost o1 = sym_views(out@);
    match &node.body {
        None => {
            assert(sym_views(out@) =~= o0 + node_syms(module@, *node, is_public));
        },
        Some(body) => {
            proof {
                assert(decreases_to!(*node => node.body));
                assert(decreases_to!(node.body => node.body->0));
            }
            let ghost ms = body@;
            let mut i: usize = 0;
            assert(ms.subrange(0, 0) =~= seq![]);
            assert(o1 + members_syms(module@, ms.subrange(0, 0)) =~= o1);
            while i < body.len()
                invariant
                    i <= ms.len(),
                    ms == body@,
                    node.body == Some(*body),
                    decreases_to!(*node => *body),
                    sym_views(out@) == o1 + members_syms(module@, ms.subrange(0, i as int)),
                decreases ms.len() - i,
            {
                let ghost before = sym_views(out@);
                let ghost s = ms.subrange(0, i + 1);
                assert(s.subrange(0, s.len() - 1) =~= ms.subrange(0, i as int));
                match &body[i] {
                    BodyMember::Decl(inner) => {
                        proof {
                            assert(decreases_to!(*body => body@));
                            assert(decreases_to!(body@ => body@[i as int]));
                            assert(decreases_to!(body@[i as int] => *inner));
                        }
                        collect_decl(out, module, inner);
                    },
                    BodyMember::Callable(_) => {},
                }
                assert(sym_views(out@) =~= o1 + members_syms(module@, ms.subrange(0, i + 1)));
                i = i + 1;
            }
            assert(ms.subrange(0, ms.len() as int) =~= ms);
            assert(sym_views(out@) =~= o0 + node_syms(module@, *node, is_public));
        },
    }
}

/// The symbol kind of a structural node kind.
fn node_kind_symbol(k: NodeKind) -> (r: SymbolKind)
    ensures
        r == node_symbol_kind(k),
{
    match k {
        NodeKind::Person => SymbolKind::Person,
        NodeKind::System => SymbolKind::System,
        NodeKind::Container => SymbolKind::Container,
        NodeKind::Component => SymbolKind::Component,
    }
}

/// The symbols of a module's declarations.
fn module_symbols(module: &Module, path: &str) -> (out: Vec<Symbol>)
    ensures
        sym_views(out@) == items_syms(path@, module.items@),
{
    let mut out: Vec<Symbol> = Vec::new();
    let mut i: usize = 0;
    assert(sym_views(out@) =~= items_syms(path@, module.items@.take(0)));
    while i < module.items.len()
        invariant
            i <= module.items@.len(),
            sym_views(out@) == items_syms(path@, module.items@.take(i as int)),
        decreases module.items@.len() - i,
    {
        assert(module.items@.take(i + 1).drop_last() =~= module.items@.take(i as int));
        let ghost before = sym_views(out@);
        match &module.items[i] {
            Item::Decl(d) => collect_decl(&mut out, path, d),
            Item::Feature(_) => {},
        }
        assert(sym_views(out@) =~= items_syms(path@, module.items@.take(i + 1)));
        i = i + 1;
    }
    assert(module.items@.take(module.items@.len() as int) =~= module.items@);
    out
}

/// The resolved symbol table of one module.
#[derive(Debug, Clone, PartialEq, Default)]
pub struct Model {
    /// This module's FQN, or empty for an anonymous module.
    pub module_name: String,
    /// Every declaration's symbol, in declaration order.
    pub declared: Vec<Symbol>,
    /// The member lists recorded while walking the declarations, each under
    /// its owner's bare name; a later list for a name replaces an earlier one.
    pub member_lists: Vec<(String, Vec<Member>)>,
    /// Each union's fieldless variant names under the union's bare name; a
    /// later list for a name replaces an earlier one.
    pub union_lists: Vec<(String, Vec<String>)>,
    /// Every `constant`, nested ones included, in walk order: its FQN and
    /// the primitive type of its literal value.
    pub constant_list: Vec<(String, String)>,
}

/// The `(FQN, type)` pairs as plain values.
pub open spec fn pair_views(ps: Seq<(String, String)>) -> Seq<(Seq<char>, Seq<char>)> {
    ps.map_values(|p: (String, String)| (p.0@, p.1@))
}

/// The constants among the walk steps `vs` of module `module`: each one's
/// FQN and the primitive type of its value, in walk order.
pub open spec fn const_puts(vs: Seq<crate::model::check::Visit>, module: Seq<char>) -> Seq<(Seq<char>, Seq<char>)>
    decreases vs.len(),
{
    if vs.len() == 0 {
        seq![]
    } else {
        const_puts(vs.drop_last(), module) + match vs.last() {
            crate::model::check::Visit::Decl(d) => match d.kind {
                DeclKind::Constant(c) => seq![(qualified(module, c.name.name@), crate::model::infer::literal_type(c.value))],
                _ => seq![],
            },
            _ => seq![],
        }
    }
}

/// Whether entry `k` of `ps` is the last with its key.
pub open spec fn last_of_key(ps: Seq<(Seq<char>, Seq<char>)>, k: int) -> bool {
    forall|j: int| k < j < ps.len() ==> ps[j].0 != ps[k].0
}

/// The entries of the first `n` of `ps` that are the last with their key.
pub open spec fn lasts_upto(ps: Seq<(Seq<char>, Seq<char>)>, n: int) -> Seq<(Seq<char>, Seq<char>)>
    decreases n,
{
    if n <= 0 {
        seq![]
    } else if last_of_key(ps, n - 1) {
        lasts_upto(ps, n - 1).push(ps[n - 1])
    } else {
        lasts_upto(ps, n - 1)
    }
}

/// The index of the last key of `keys` equal to `key`, or -1.
pub open spec fn last_key(keys: Seq<Seq<char>>, key: Seq<char>) -> int
    decreases keys.len(),
{
    if keys.len() == 0 {
        -1
    } else if keys.last() == key {
        keys.len() - 1
    } else {
        last_key(keys.drop_last(), key)
    }
}

/// The members recorded last under `owner`, or none.
pub open spec fn members_of(lists: Seq<MembersView>, owner: Seq<char>) -> Seq<MemberView> {
    let k = last_key(lists.map_values(|l: MembersView| l.0), owner);
    if k >= 0 {
        lists[k].1
    } else {
        seq![]
    }
}

/// The fieldless variants recorded last under `union`, or none.
pub open spec fn fieldless_of(lists: Seq<UnionView>, union: Seq<char>) -> Seq<Seq<char>> {
    let k = last_key(lists.map_values(|l: UnionView| l.0), union);
    if k >= 0 {
        lists[k].1
    } else {
        seq![]
    }
}

proof fn lemma_last_key(keys: Seq<Seq<char>>, key: Seq<char>)
    ensures
        -1 <= last_key(keys, key) < keys.len(),
        last_key(keys, key) >= 0 ==> keys[last_key(keys, key)] == key,
        forall|k: int| last_key(keys, key) < k < keys.len() ==> keys[k] != key,
    decreases keys.len(),
{
    if keys.len() > 0 && keys.last() != key {
        lemma_last_key(keys.drop_last(), key);
        assert forall|k: int| 0 <= k < keys.len() - 1 implies keys.drop_last()[k] == keys[k] by {}
    }
}

/// The index of the last pair of `lists` keyed `key`.
pub(crate) fn last_index<T>(lists: &Vec<(String, T)>, key: &str) -> (r: Option<usize>)
    ensures
        r matches Some(i) ==> i == last_key(lists@.map_values(|l: (String, T)| l.0@), key@) && i < lists@.len(),
        r is None ==> last_key(lists@.map_values(|l: (String, T)| l.0@), key@) == -1,
{
    let ghost keys = lists@.map_values(|l: (String, T)| l.0@);
    proof {
        lemma_last_key(keys, key@);
    }
    let mut i: usize = lists.len();
    while i > 0
        invariant
            i <= lists@.len(),
            keys == lists@.map_values(|l: (String, T)| l.0@),
            forall|k: int| i <= k < keys.len() ==> keys[k] != key@,
            -1 <= last_key(keys, key@) < keys.len(),
            last_key(keys, key@) >= 0 ==> keys[last_key(keys, key@)] == key@,
            forall|k: int| last_key(keys, key@) < k < keys.len() ==> keys[k] != key@,
        decreases i,
    {
        assert(keys[i - 1] == lists@[i - 1].0@);
        if crate::strs::str_eq(lists[i - 1].0.as_str(), key) {
            return Some(i - 1);
        }
        i = i - 1;
    }
    None
}

/// Whether the member list at `k` is the last one recorded for its owner.
pub open spec fn is_live(lists: Seq<MembersView>, k: int) -> bool {
    forall|j: int| k < j < lists.len() ==> lists[j].0 != lists[k].0
}

/// The index of the first member of `ms` from `i` on declared at `span`.
pub open spec fn span_index(ms: Seq<MemberView>, span: Span, i: int) -> Option<int>
    decreases ms.len() - i,
{
    if i < 0 || i >= ms.len() {
        None
    } else if ms[i].2 == span {
        Some(i)
    } else {
        span_index(ms, span, i + 1)
    }
}

/// The owner and member, among the live member lists from `k` on, of the
/// first member declared at `span`.
pub open spec fn member_at_from(lists: Seq<MembersView>, span: Span, k: int) -> Option<(Seq<char>, MemberView)>
    decreases lists.len() - k,
{
    if k < 0 || k >= lists.len() {
        None
    } else if is_live(lists, k) && span_index(lists[k].1, span, 0) is Some {
        Some((lists[k].0, lists[k].1[span_index(lists[k].1, span, 0)->0]))
    } else {
        member_at_from(lists, span, k + 1)
    }
}

proof fn lemma_span_index(ms: Seq<MemberView>, span: Span, i: int)
    requires
        0 <= i,
    ensures
        span_index(ms, span, i) matches Some(j) ==> i <= j < ms.len() && ms[j].2 == span,
    decreases ms.len() - i,
{
    if i < ms.len() && ms[i].2 != span {
        lemma_span_index(ms, span, i + 1);
    }
}

impl Model {
    /// Whether `path` is this module's own FQN.
    pub fn is_module_path(&self, path: &str) -> (b: bool)
        ensures
            b == (path@ == self.module_name@),
    {
        crate::strs::str_eq(path, self.module_name.as_str())
    }

    /// Every declaration's symbol, in declaration order.
    pub open spec fn declared_seq(self) -> Seq<Symbol> {
        self.declared@
    }

    /// The symbol table of a single anonymous module (no module FQN).
    pub fn build(module: &Module) -> (m: Model)
        ensures
            m.module_name@ == Seq::<char>::empty(),
            sym_views(m.declared_seq()) == items_syms(Seq::<char>::empty(), module.items@),
            members_views(m.member_lists@) == items_member_puts(module.items@),
            union_views(m.union_lists@) == items_union_puts(module.items@),
    {
        Model::build_with_path(module, String::new())
    }

    /// The symbol table of a module named `module_name`.
    pub fn build_with_path(module: &Module, module_name: String) -> (m: Model)
        ensures
            m.module_name@ == module_name@,
            sym_views(m.declared_seq()) == items_syms(module_name@, module.items@),
            members_views(m.member_lists@) == items_member_puts(module.items@),
            union_views(m.union_lists@) == items_union_puts(module.items@),
    {
        let declared = module_symbols(module, module_name.as_str());
        let mut member_lists: Vec<(String, Vec<Member>)> = Vec::new();
        let mut union_lists: Vec<(String, Vec<String>)> = Vec::new();
        let mut i: usize = 0;
        assert(module.items@.take(0) =~= seq![]);
        assert(members_views(member_lists@) =~= seq![]);
        assert(union_views(union_lists@) =~= seq![]);
        while i < module.items.len()
            invariant
                i <= module.items@.len(),
                members_views(member_lists@) == items_member_puts(module.items@.take(i as int)),
                union_views(union_lists@) == items_union_puts(module.items@.take(i as int)),
            decreases module.items@.len() - i,
        {
            assert(module.items@.take(i + 1).drop_last() =~= module.items@.take(i as int));
            match &module.items[i] {
                Item::Decl(d) => {
                    collect_members(&mut member_lists, d);
                    collect_unions(&mut union_lists, d);
                },
                Item::Feature(_) => {
                    assert(members_views(member_lists@) + seq![] =~= members_views(member_lists@));
                    assert(union_views(union_lists@) + seq![] =~= union_views(union_lists@));
                },
            }
            i = i + 1;
        }
        assert(module.items@.take(module.items@.len() as int) =~= module.items@);
        let vs = crate::model::check::module_visits(module);
        let ghost all = crate::model::check::visits_of(vs@);
        let mut constant_list: Vec<(String, String)> = Vec::new();
        let mut k: usize = 0;
        assert(pair_views(constant_list@) =~= const_puts(all.take(0), module_name@));
        while k < vs.len()
            invariant
                k <= vs@.len(),
                all == crate::model::check::visits_of(vs@),
                pair_views(constant_list@) == const_puts(all.take(k as int), module_name@),
            decreases vs@.len() - k,
        {
            assert(all.take(k + 1).drop_last() =~= all.take(k as int));
            assert(all.take(k + 1).last() == all[k as int]);
            let ghost c0 = pair_views(constant_list@);
            match vs[k] {
                crate::model::check::VisitRef::Decl(d) => match &d.kind {
                    DeclKind::Constant(c) => {
                        let q = qualify(module_name.as_str(), c.name.name.as_str());
                        let t = crate::model::infer::literal_type_of(&c.value);
                        constant_list.push((q, t));
                        assert(pair_views(constant_list@) =~= c0 + seq![(q@, t@)]);
                    },
                    _ => {
                        assert(pair_views(constant_list@) =~= c0 + seq![]);
                    },
                },
                _ => {
                    assert(pair_views(constant_list@) =~= c0 + seq![]);
                },
            }
            k = k + 1;
        }
        assert(all.take(vs@.len() as int) =~= all);
        Model { module_name, declared, member_lists, union_lists, constant_list }
    }

    /// Each `constant`'s FQN paired with its declared primitive type: one
    /// pair per FQN (a later declaration replaces an earlier one), in the
    /// order of those last declarations.
    pub fn constant_types(&self) -> (r: Vec<(String, String)>)
        ensures
            pair_views(r@) == lasts_upto(pair_views(self.constant_list@), self.constant_list@.len() as int),
    {
        let ghost ps = pair_views(self.constant_list@);
        let mut out: Vec<(String, String)> = Vec::new();
        let mut i: usize = 0;
        assert(pair_views(out@) =~= seq![]);
        while i < self.constant_list.len()
            invariant
                i <= self.constant_list@.len(),
                ps == pair_views(self.constant_list@),
                pair_views(out@) == lasts_upto(ps, i as int),
            decreases self.constant_list@.len() - i,
        {
            let mut j: usize = i + 1;
            let mut last = true;
            while j < self.constant_list.len() && last
                invariant
                    i < j <= self.constant_list@.len(),
                    ps == pair_views(self.constant_list@),
                    forall|q: int| i < q < j ==> ps[q].0 != ps[i as int].0,
                    !last ==> j < ps.len() && ps[j as int].0 == ps[i as int].0,
                decreases self.constant_list@.len() - j + (if last { 1int } else { 0int }),
            {
                if crate::strs::str_eq(self.constant_list[j].0.as_str(), self.constant_list[i].0.as_str()) {
                    last = false;
                    assert(ps[j as int].0 == ps[i as int].0);
                } else {
                    j = j + 1;
                }
            }
            assert(last == last_of_key(ps, i as int));
            if last {
                let pair = (self.constant_list[i].0.clone(), self.constant_list[i].1.clone());
                let ghost o0 = pair_views(out@);
                out.push(pair);
                assert(pair_views(out@) =~= o0.push(ps[i as int]));
            }
            i = i + 1;
        }
        out
    }

    /// The members (callables, fields) of the node or record named `owner`.
    pub fn members(&self, owner: &str) -> (r: &[Member])
        ensures
            member_views(r@) == members_of(members_views(self.member_lists@), owner@),
    {
        let ghost mv = members_views(self.member_lists@);
        assert(mv.map_values(|l: MembersView| l.0) =~= self.member_lists@.map_values(
            |l: (String, Vec<Member>)| l.0@,
        ));
        match last_index(&self.member_lists, owner) {
            Some(k) => {
                assert(mv[k as int].1 == member_views(self.member_lists@[k as int].1@));
                self.member_lists[k].1.as_slice()
            },
            None => {
                let empty: &[Member] = &[];
                assert(member_views(empty@) =~= seq![]);
                empty
            },
        }
    }

    /// The member declared at `span`, with its owner's name: members are
    /// not symbols, so this is how a member's own declaration resolves.
    pub fn member_at(&self, span: Span) -> (r: Option<(&str, &Member)>)
        ensures
            match r {
                Some(p) => member_at_from(members_views(self.member_lists@), span, 0) == Some((p.0@, member_view(*p.1))),
                None => member_at_from(members_views(self.member_lists@), span, 0) is None,
            },
    {
        let ghost lv = members_views(self.member_lists@);
        let n = self.member_lists.len();
        let mut k: usize = 0;
        while k < n
            invariant
                k <= n == self.member_lists@.len(),
                lv == members_views(self.member_lists@),
                member_at_from(lv, span, 0) == member_at_from(lv, span, k as int),
            decreases n - k,
        {
            let mut live = true;
            let mut j: usize = k + 1;
            while j < n
                invariant
                    k < j <= n == self.member_lists@.len(),
                    lv == members_views(self.member_lists@),
                    live == forall|q: int| k < q < j ==> lv[q].0 != lv[k as int].0,
                decreases n - j,
            {
                assert(lv[j as int].0 == self.member_lists@[j as int].0@);
                assert(lv[k as int].0 == self.member_lists@[k as int].0@);
                if crate::strs::str_eq(self.member_lists[j].0.as_str(), self.member_lists[k].0.as_str()) {
                    live = false;
                }
                j = j + 1;
            }
            let ms = &self.member_lists[k].1;
            let ghost mv = member_views(ms@);
            assert(lv[k as int].1 == mv);
            let mut hit: Option<usize> = None;
            let mut i: usize = 0;
            while i < ms.len() && hit.is_none()
                invariant
                    i <= ms@.len(),
                    mv == member_views(ms@),
                    hit is None ==> span_index(mv, span, 0) == span_index(mv, span, i as int),
                    hit matches Some(h) ==> h < ms@.len() && span_index(mv, span, 0) == Some(h as int),
                decreases ms@.len() - i,
            {
                if ms[i].span.start == span.start && ms[i].span.end == span.end {
                    assert(mv[i as int].2 == span);
                    hit = Some(i);
                }
                i = i + 1;
            }
            assert(live == is_live(lv, k as int));
            if live {
                match hit {
                    Some(h) => {
                        assert(lv[k as int].0 == self.member_lists@[k as int].0@);
                        return Some((self.member_lists[k].0.as_str(), &ms[h]));
                    },
                    None => {},
                }
            }
            k = k + 1;
        }
        None
    }

    /// Whether the union named `union` declares the fieldless variant
    /// `variant`.
    pub fn has_fieldless_variant(&self, union: &str, variant: &str) -> (b: bool)
        ensures
            b == fieldless_of(union_views(self.union_lists@), union@).contains(variant@),
    {
        let ghost uv = union_views(self.union_lists@);
        assert(uv.map_values(|l: UnionView| l.0) =~= self.union_lists@.map_values(
            |l: (String, Vec<String>)| l.0@,
        ));
        match last_index(&self.union_lists, union) {
            Some(k) => {
                let vs = &self.union_lists[k].1;
                let ghost names = vs@.map_values(|v: String| v@);
                assert(uv[k as int].1 == names);
                assert(fieldless_of(uv, union@) == names);
                let mut j: usize = 0;
                while j < vs.len()
                    invariant
                        j <= vs@.len(),
                        uv == union_views(self.union_lists@),
                        fieldless_of(uv, union@) == names,
                        names == vs@.map_values(|v: String| v@),
                        forall|q: int| 0 <= q < j ==> names[q] != variant@,
                    decreases vs@.len() - j,
                {
                    if crate::strs::str_eq(vs[j].as_str(), variant) {
                        assert(names[j as int] == variant@ && names.len() == vs@.len());
                        assert(names.contains(variant@));
                        return true;
                    }
                    j = j + 1;
                }
                false
            },
            None => false,
        }
    }

    /// The symbol declared last under the bare name `name`: a later
    /// declaration of a name replaces an earlier one.
    pub fn symbol(&self, name: &str) -> (r: Option<&Symbol>)
        ensures
            r matches Some(s) ==> last_sym(sym_views(self.declared_seq()), name@, false) >= 0 && sym_view(*s)
                == sym_views(self.declared_seq())[last_sym(sym_views(self.declared_seq()), name@, false)],
            r is None ==> last_sym(sym_views(self.declared_seq()), name@, false) == -1,
    {
        find_last(&self.declared, name, false)
    }

    /// The symbols, one per declared name (its last declaration), in
    /// declaration order.
    pub fn symbols(&self) -> (r: Vec<Symbol>)
        ensures
            sym_views(r@) == latest(sym_views(self.declared_seq()), false),
    {
        latest_of(&self.declared, false)
    }

    /// Whether `name` is declared in this module.
    pub fn resolves_node(&self, name: &str) -> (b: bool)
        ensures
            b == (last_sym(sym_views(self.declared_seq()), name@, false) >= 0),
    {
        self.symbol(name).is_some()
    }
}

/// The last symbol of `ss` whose name (or FQN) is `key`.
fn find_last<'a>(ss: &'a Vec<Symbol>, key: &str, by_fqn: bool) -> (r: Option<&'a Symbol>)
    ensures
        r matches Some(s) ==> last_sym(sym_views(ss@), key@, by_fqn) >= 0 && sym_view(*s) == sym_views(
            ss@,
        )[last_sym(sym_views(ss@), key@, by_fqn)],
        r is None ==> last_sym(sym_views(ss@), key@, by_fqn) == -1,
{
    let ghost sv = sym_views(ss@);
    proof {
        lemma_last_sym(sv, key@, by_fqn);
    }
    let mut i: usize = ss.len();
    while i > 0
        invariant
            i <= ss@.len(),
            sv == sym_views(ss@),
            forall|k: int| i <= k < ss@.len() ==> (if by_fqn { sv[k].1 } else { sv[k].0 }) != key@,
            -1 <= last_sym(sv, key@, by_fqn) < sv.len(),
            last_sym(sv, key@, by_fqn) >= 0 ==> (if by_fqn { sv[last_sym(sv, key@, by_fqn)].1 } else {
                sv[last_sym(sv, key@, by_fqn)].0
            }) == key@,
            forall|k: int|
                0 <= k < sv.len() && (if by_fqn { sv[k].1 } else { sv[k].0 }) == key@ ==> last_sym(sv, key@, by_fqn)
                    >= k,
        decreases i,
    {
        let s = &ss[i - 1];
        assert(sv[i - 1] == sym_view(*s));
        let hit = if by_fqn {
            crate::strs::str_eq(s.fqn.as_str(), key)
        } else {
            crate::strs::str_eq(s.name.as_str(), key)
        };
        if hit {
            return Some(s);
        }
        i = i - 1;
    }
    None
}

/// Entry `i` is the last of `ss` with its key.
pub open spec fn is_latest(ss: Seq<SymView>, i: int, by_fqn: bool) -> bool {
    forall|j: int|
        i < j < ss.len() ==> (if by_fqn { ss[j].1 } else { ss[j].0 }) != (if by_fqn { ss[i].1 } else { ss[i].0 })
}

/// The entries of `ss` that are the last with their key, in order.
pub open spec fn latest_upto(ss: Seq<SymView>, k: nat, by_fqn: bool) -> Seq<SymView>
    decreases k,
{
    if k == 0 {
        seq![]
    } else if is_latest(ss, k - 1, by_fqn) {
        latest_upto(ss, (k - 1) as nat, by_fqn).push(ss[k - 1])
    } else {
        latest_upto(ss, (k - 1) as nat, by_fqn)
    }
}

/// The entries of `ss` that are the last with their key, in order.
pub open spec fn latest(ss: Seq<SymView>, by_fqn: bool) -> Seq<SymView> {
    latest_upto(ss, ss.len(), by_fqn)
}

/// The entries of `ss` that are the last with their name (or FQN).
fn latest_of(ss: &Vec<Symbol>, by_fqn: bool) -> (r: Vec<Symbol>)
    ensures
        sym_views(r@) == latest(sym_views(ss@), by_fqn),
{
    let ghost sv = sym_views(ss@);
    let mut r: Vec<Symbol> = Vec::new();
    let mut i: usize = 0;
    assert(sym_views(r@) =~= seq![]);
    while i < ss.len()
        invariant
            i <= ss@.len(),
            sv == sym_views(ss@),
            sym_views(r@) == latest_upto(sv, i as nat, by_fqn),
        decreases ss@.len() - i,
    {
        let mut keep = true;
        let mut j: usize = i + 1;
        while j < ss.len()
            invariant
                i < j <= ss@.len(),
                sv == sym_views(ss@),
                keep == forall|q: int| i < q < j ==> (if by_fqn { sv[q].1 } else { sv[q].0 }) != (if by_fqn {
                    sv[i as int].1
                } else {
                    sv[i as int].0
                }),
            decreases ss@.len() - j,
        {
            assert(sv[j as int] == sym_view(ss@[j as int]) && sv[i as int] == sym_view(ss@[i as int]));
            let same = if by_fqn {
                crate::strs::str_eq(ss[j].fqn.as_str(), ss[i].fqn.as_str())
            } else {
                crate::strs::str_eq(ss[j].name.as_str(), ss[i].name.as_str())
            };
            if same {
                keep = false;
            }
            j = j + 1;
        }
        let ghost before = sym_views(r@);
        if keep {
            let s = ss[i].clone();
            proof {
                lemma_views_push(r@, s);
            }
            r.push(s);
        }
        assert(sv[i as int] == sym_view(ss@[i as int]));
        i = i + 1;
    }
    r
}

/// One module's parsed syntax tree and symbol table, under its FQN.
#[derive(Debug)]
pub struct ModuleEntry {
    /// The module's FQN (`banking::core`).
    pub fqn: String,
    /// The parsed module.
    pub ast: Module,
    /// The module's symbol table.
    pub model: Model,
}

/// The symbols of `(fqn, module)` pairs, module after module.
pub open spec fn modules_syms(ms: Seq<(String, Module)>) -> Seq<SymView>
    decreases ms.len(),
{
    if ms.len() == 0 {
        seq![]
    } else {
        modules_syms(ms.drop_last()) + items_syms(ms.last().0@, ms.last().1.items@)
    }
}

/// The FQNs of `(fqn, module)` pairs.
pub open spec fn module_fqns(ms: Seq<(String, Module)>) -> Seq<Seq<char>> {
    ms.map_values(|m: (String, Module)| m.0@)
}

/// The module part of a symbol FQN: everything before its last `::`, or
/// nothing for a bare name.
pub open spec fn symbol_module_of(fqn: Seq<char>) -> Seq<char>
    decreases fqn.len(),
{
    if fqn.len() < 2 {
        seq![]
    } else if fqn[fqn.len() - 2] == ':' && fqn[fqn.len() - 1] == ':' {
        fqn.take(fqn.len() - 2)
    } else {
        symbol_module_of(fqn.drop_last())
    }
}

/// The module part of a symbol FQN (`banking::core::Ledger` gives
/// `banking::core`); empty for a bare name.
pub fn symbol_module(fqn: &str) -> (r: String)
    ensures
        r@ == symbol_module_of(fqn@),
{
    let cs = crate::strs::chars_of(fqn);
    let mut k: usize = cs.len();
    assert(cs@.take(k as int) =~= cs@);
    while k >= 2 && !(cs[k - 2] == ':' && cs[k - 1] == ':')
        invariant
            k <= cs@.len(),
            cs@ == fqn@,
            symbol_module_of(fqn@) == symbol_module_of(cs@.take(k as int)),
        decreases k,
    {
        assert(cs@.take(k as int).drop_last() =~= cs@.take(k - 1));
        k = k - 1;
    }
    if k < 2 {
        return String::new();
    }
    let mut out: Vec<char> = Vec::new();
    let mut i: usize = 0;
    while i < k - 2
        invariant
            i <= k - 2,
            k <= cs@.len(),
            out@ == cs@.take(i as int),
        decreases k - 2 - i,
    {
        out.push(cs[i]);
        i = i + 1;
        assert(out@ =~= cs@.take(i as int));
    }
    assert(cs@.take(k as int).take(k - 2) =~= cs@.take(k - 2));
    crate::strs::string_of(&out)
}

/// The outcome of resolving a fully-qualified reference.
#[derive(Debug, Clone, Copy)]
pub enum Resolution<'a> {
    /// The FQN names a symbol the referrer may address.
    Public(&'a Symbol),
    /// The FQN names a non-`public` symbol of another module.
    Private(&'a Symbol),
    /// No symbol has that FQN.
    Missing,
}

/// A resolved set of modules keyed by FQN: each local module's syntax tree
/// and symbol table, and an index of every symbol (local, then the
/// dependency modules') by FQN.
#[derive(Debug, Default)]
pub struct Workspace {
    /// The local modules, in input order.
    modules: Vec<ModuleEntry>,
    /// Every symbol, local modules first, in declaration order.
    index: Vec<Symbol>,
    /// The FQNs of the dependency (external) modules.
    external_modules: Vec<String>,
    /// The dependency modules' entries.
    external_entries: Vec<ModuleEntry>,
}

impl Workspace {
    /// The local module entries.
    pub closed spec fn entry_seq(self) -> Seq<ModuleEntry> {
        self.modules@
    }

    /// Every indexed symbol, in indexing order.
    pub closed spec fn index_seq(self) -> Seq<Symbol> {
        self.index@
    }

    /// The dependency modules' FQNs.
    pub closed spec fn external_seq(self) -> Seq<Seq<char>> {
        self.external_modules@.map_values(|s: String| s@)
    }

    /// The dependency module entries.
    pub closed spec fn external_entry_seq(self) -> Seq<ModuleEntry> {
        self.external_entries@
    }

    /// Builds the workspace from `(fqn, parsed module)` pairs.
    pub fn build(modules: Vec<(String, Module)>) -> (w: Workspace)
        ensures
            sym_views(w.index_seq()) == modules_syms(modules@),
            w.entry_seq().len() == modules@.len(),
            forall|i: int| 0 <= i < modules@.len() ==> (#[trigger] w.entry_seq()[i]).fqn@ == modules@[i].0@
                && w.entry_seq()[i].model.module_name@ == modules@[i].0@ && sym_views(
                w.entry_seq()[i].model.declared_seq(),
            ) == items_syms(modules@[i].0@, modules@[i].1.items@) && w.entry_seq()[i].ast == modules@[i].1,
            w.external_seq().len() == 0,
    {
        Workspace::build_with_externals(modules, Vec::new())
    }

    /// Builds a workspace from its local modules and the dependency modules
    /// (whose FQNs the loader prefixes with the dependency's name). Every
    /// symbol of both is indexed; only local modules are checked.
    pub fn build_with_externals(local: Vec<(String, Module)>, external: Vec<(String, Module)>) -> (w: Workspace)
        ensures
            sym_views(w.index_seq()) == modules_syms(local@) + modules_syms(external@),
            w.entry_seq().len() == local@.len(),
            forall|i: int| 0 <= i < local@.len() ==> (#[trigger] w.entry_seq()[i]).fqn@ == local@[i].0@
                && w.entry_seq()[i].model.module_name@ == local@[i].0@ && sym_views(
                w.entry_seq()[i].model.declared_seq(),
            ) == items_syms(local@[i].0@, local@[i].1.items@) && w.entry_seq()[i].ast == local@[i].1,
            w.external_seq() == module_fqns(external@),
            w.external_entry_seq().len() == external@.len(),
    {
        let ghost l0 = local@;
        let ghost e0 = external@;
        let mut index: Vec<Symbol> = Vec::new();
        let (modules, _) = Self::entries(local, &mut index);
        let ghost mid = sym_views(index@);
        let (external_entries, external_modules) = Self::entries(external, &mut index);
        Workspace { modules, index, external_modules, external_entries }
    }

    /// The entries of `ms`, their FQNs, and their symbols appended to
    /// `index`.
    fn entries(ms: Vec<(String, Module)>, index: &mut Vec<Symbol>) -> (r: (Vec<ModuleEntry>, Vec<String>))
        ensures
            sym_views(final(index)@) == sym_views(old(index)@) + modules_syms(ms@),
            r.0@.len() == ms@.len(),
            forall|i: int| 0 <= i < ms@.len() ==> (#[trigger] r.0@[i]).fqn@ == ms@[i].0@
                && r.0@[i].model.module_name@ == ms@[i].0@ && sym_views(r.0@[i].model.declared_seq())
                == items_syms(ms@[i].0@, ms@[i].1.items@) && r.0@[i].ast == ms@[i].1,
            r.1@.map_values(|s: String| s@) == module_fqns(ms@),
    {
        let ghost all = ms@;
        let ghost i0 = sym_views(index@);
        let mut entries: Vec<ModuleEntry> = Vec::new();
        let mut fqns: Vec<String> = Vec::new();
        let total = ms.len();
        let mut rest = ms;
        let mut i: usize = 0;
        assert(rest@ =~= all.skip(0));
        assert(sym_views(index@) =~= i0 + modules_syms(all.take(0)));
        while rest.len() > 0
            invariant
                i + rest@.len() == all.len(),
                i <= all.len(),
                all.len() == total,
                rest@ == all.skip(i as int),
                sym_views(index@) == i0 + modules_syms(all.take(i as int)),
                entries@.len() == i,
                forall|k: int| 0 <= k < i ==> (#[trigger] entries@[k]).fqn@ == all[k].0@
                    && entries@[k].model.module_name@ == all[k].0@ && sym_views(entries@[k].model.declared_seq())
                    == items_syms(all[k].0@, all[k].1.items@) && entries@[k].ast == all[k].1,
                fqns@.map_values(|s: String| s@) == module_fqns(all.take(i as int)),
            decreases rest@.len(),
        {
            let (fqn, ast) = rest.remove(0);
            assert((fqn, ast) == all[i as int]);
            assert(rest@ =~= all.skip(i + 1));
            let model = Model::build_with_path(&ast, fqn.clone());
            let ghost before = sym_views(index@);
            let mut j: usize = 0;
            while j < model.declared.len()
                invariant
                    j <= model.declared@.len(),
                    sym_views(index@) == before + sym_views(model.declared@).take(j as int),
                decreases model.declared@.len() - j,
            {
                let s = model.declared[j].clone();
                proof {
                    lemma_views_push(index@, s);
                }
                index.push(s);
                assert(sym_views(model.declared@).take(j + 1) =~= sym_views(model.declared@).take(j as int).push(
                    sym_view(model.declared@[j as int]),
                ));
                j = j + 1;
            }
            assert(sym_views(model.declared@).take(model.declared@.len() as int) =~= sym_views(model.declared@));
            assert(all.take(i + 1).drop_last() =~= all.take(i as int));
            assert(sym_views(index@) =~= i0 + modules_syms(all.take(i + 1)));
            let ghost fb = fqns@.map_values(|s: String| s@);
            fqns.push(fqn.clone());
            assert(fqns@.map_values(|s: String| s@) =~= fb.push(fqn@));
            assert(module_fqns(all.take(i + 1)) =~= module_fqns(all.take(i as int)).push(fqn@));
            entries.push(ModuleEntry { fqn, ast, model });
            i = i + 1;
        }
        assert(all.take(all.len() as int) =~= all);
        (entries, fqns)
    }

    /// The local modules, in input order.
    pub fn modules(&self) -> (r: &Vec<ModuleEntry>)
        ensures
            r@ == self.entry_seq(),
    {
        &self.modules
    }

    /// Looks up a symbol by its FQN, regardless of visibility; a later
    /// declaration of an FQN replaces an earlier one.
    pub fn symbol(&self, fqn: &str) -> (r: Option<&Symbol>)
        ensures
            r matches Some(s) ==> last_sym(sym_views(self.index_seq()), fqn@, true) >= 0 && sym_view(*s)
                == sym_views(self.index_seq())[last_sym(sym_views(self.index_seq()), fqn@, true)],
            r is None ==> last_sym(sym_views(self.index_seq()), fqn@, true) == -1,
    {
        find_last(&self.index, fqn, true)
    }

    /// Every symbol, one per FQN (its last declaration).
    pub fn symbols(&self) -> (r: Vec<Symbol>)
        ensures
            sym_views(r@) == latest(sym_views(self.index_seq()), true),
    {
        latest_of(&self.index, true)
    }

    /// The local module named `fqn`, if present.
    pub fn module(&self, fqn: &str) -> (r: Option<&ModuleEntry>)
        ensures
            r matches Some(e) ==> first_entry(self.entry_seq(), fqn@) >= 0 && *e == self.entry_seq()[first_entry(
                self.entry_seq(),
                fqn@,
            )],
            r is None ==> first_entry(self.entry_seq(), fqn@) == -1,
    {
        find_entry(&self.modules, fqn)
    }

    /// The module named `fqn`, local or a dependency's.
    pub fn module_any(&self, fqn: &str) -> (r: Option<&ModuleEntry>)
        ensures
            r matches Some(e) ==> (first_entry(self.entry_seq(), fqn@) >= 0 && *e == self.entry_seq()[first_entry(
                self.entry_seq(),
                fqn@,
            )]) || (first_entry(self.entry_seq(), fqn@) == -1 && first_entry(self.external_entry_seq(), fqn@) >= 0
                && *e == self.external_entry_seq()[first_entry(self.external_entry_seq(), fqn@)]),
            r is None ==> first_entry(self.entry_seq(), fqn@) == -1 && first_entry(self.external_entry_seq(), fqn@) == -1,
    {
        match find_entry(&self.modules, fqn) {
            Some(e) => Some(e),
            None => find_entry(&self.external_entries, fqn),
        }
    }

    /// The module named `fqn`, local first, then a dependency's.
    pub open spec fn any_entry(self, fqn: Seq<char>) -> Option<ModuleEntry> {
        if first_entry(self.entry_seq(), fqn) >= 0 {
            Some(self.entry_seq()[first_entry(self.entry_seq(), fqn)])
        } else if first_entry(self.external_entry_seq(), fqn) >= 0 {
            Some(self.external_entry_seq()[first_entry(self.external_entry_seq(), fqn)])
        } else {
            None
        }
    }

    /// The symbol table of the module named `fqn`, local or a dependency's.
    pub fn module_model(&self, fqn: &str) -> (r: Option<&Model>)
        ensures
            match self.any_entry(fqn@) {
                Some(e) => r == Some(&e.model),
                None => r is None,
            },
    {
        match self.module_any(fqn) {
            Some(e) => Some(&e.model),
            None => None,
        }
    }

    /// The dependency modules' FQNs, in the order they were indexed.
    pub fn external_module_fqns(&self) -> (r: Vec<String>)
        ensures
            r@.map_values(|s: String| s@) == self.external_seq(),
    {
        let mut r: Vec<String> = Vec::new();
        let mut i: usize = 0;
        while i < self.external_modules.len()
            invariant
                i <= self.external_modules@.len(),
                r@.len() == i,
                forall|k: int| 0 <= k < i ==> (#[trigger] r@[k])@ == self.external_modules@[k]@,
            decreases self.external_modules@.len() - i,
        {
            r.push(self.external_modules[i].clone());
            i = i + 1;
        }
        assert(r@.map_values(|s: String| s@) =~= self.external_seq());
        r
    }

    /// Whether `module_fqn` names a dependency module.
    pub fn is_external_module(&self, module_fqn: &str) -> (b: bool)
        ensures
            b == self.external_seq().contains(module_fqn@),
    {
        let mut i: usize = 0;
        while i < self.external_modules.len()
            invariant
                i <= self.external_modules@.len(),
                forall|k: int| 0 <= k < i ==> self.external_modules@[k]@ != module_fqn@,
            decreases self.external_modules@.len() - i,
        {
            if crate::strs::str_eq(self.external_modules[i].as_str(), module_fqn) {
                assert(self.external_seq()[i as int] == module_fqn@);
                return true;
            }
            i = i + 1;
        }
        assert(!self.external_seq().contains(module_fqn@)) by {
            if self.external_seq().contains(module_fqn@) {
                let k = choose|k: int| 0 <= k < self.external_seq().len() && self.external_seq()[k] == module_fqn@;
                assert(self.external_modules@[k]@ == module_fqn@);
            }
        }
        false
    }

    /// Whether `module_fqn` names a local or a dependency module.
    pub fn is_known_module(&self, module_fqn: &str) -> (b: bool)
        ensures
            b == (first_entry(self.entry_seq(), module_fqn@) >= 0 || self.external_seq().contains(module_fqn@)),
    {
        self.module(module_fqn).is_some() || self.is_external_module(module_fqn)
    }

    /// Resolves a fully-qualified reference made from `from_module`: a
    /// same-module target resolves regardless of visibility; another
    /// module's only when `public`.
    pub fn resolve_qualified(&self, from_module: &str, fqn: &str) -> (r: Resolution)
        ensures
            last_sym(sym_views(self.index_seq()), fqn@, true) == -1 <==> r is Missing,
            r matches Resolution::Public(s) ==> last_sym(sym_views(self.index_seq()), fqn@, true) >= 0
                && sym_view(*s) == sym_views(self.index_seq())[last_sym(sym_views(self.index_seq()), fqn@, true)]
                && (symbol_module_of(fqn@) == from_module@ || s.is_public),
            r matches Resolution::Private(s) ==> last_sym(sym_views(self.index_seq()), fqn@, true) >= 0
                && sym_view(*s) == sym_views(self.index_seq())[last_sym(sym_views(self.index_seq()), fqn@, true)]
                && symbol_module_of(fqn@) != from_module@ && !s.is_public,
    {
        let symbol = match self.symbol(fqn) {
            Some(s) => s,
            None => return Resolution::Missing,
        };
        let m = symbol_module(fqn);
        let same_module = crate::strs::str_eq(m.as_str(), from_module);
        if same_module || symbol.is_public {
            Resolution::Public(symbol)
        } else {
            Resolution::Private(symbol)
        }
    }
}

/// The index of the first entry of `es` named `fqn`, or `-1`.
pub open spec fn first_entry(es: Seq<ModuleEntry>, fqn: Seq<char>) -> int
    decreases es.len(),
{
    if es.len() == 0 {
        -1
    } else if first_entry(es.drop_last(), fqn) >= 0 {
        first_entry(es.drop_last(), fqn)
    } else if es.last().fqn@ == fqn {
        es.len() - 1
    } else {
        -1
    }
}

/// `first_entry` is `-1` or the first index named `fqn`.
proof fn lemma_first_entry(es: Seq<ModuleEntry>, fqn: Seq<char>)
    ensures
        -1 <= first_entry(es, fqn) < es.len(),
        first_entry(es, fqn) >= 0 ==> es[first_entry(es, fqn)].fqn@ == fqn,
        forall|i: int| 0 <= i < es.len() && es[i].fqn@ == fqn ==> 0 <= first_entry(es, fqn) <= i,
    decreases es.len(),
{
    if es.len() > 0 {
        lemma_first_entry(es.drop_last(), fqn);
        assert forall|i: int| 0 <= i < es.len() && es[i].fqn@ == fqn implies 0 <= first_entry(es, fqn) <= i by {
            if i < es.len() - 1 {
                assert(es.drop_last()[i] == es[i]);
            }
        }
    }
}

/// The first entry of `es` named `fqn`.
fn find_entry<'a>(es: &'a Vec<ModuleEntry>, fqn: &str) -> (r: Option<&'a ModuleEntry>)
    ensures
        r matches Some(e) ==> first_entry(es@, fqn@) >= 0 && *e == es@[first_entry(es@, fqn@)],
        r is None ==> first_entry(es@, fqn@) == -1,
{
    proof {
        lemma_first_entry(es@, fqn@);
    }
    let mut i: usize = 0;
    while i < es.len()
        invariant
            i <= es@.len(),
            forall|k: int| 0 <= k < i ==> (#[trigger] es@[k]).fqn@ != fqn@,
            -1 <= first_entry(es@, fqn@) < es@.len(),
            first_entry(es@, fqn@) >= 0 ==> es@[first_entry(es@, fqn@)].fqn@ == fqn@,
            forall|k: int| 0 <= k < es@.len() && es@[k].fqn@ == fqn@ ==> 0 <= first_entry(es@, fqn@) <= k,
        decreases es@.len() - i,
    {
        if crate::strs::str_eq(es[i].fqn.as_str(), fqn) {
            return Some(&es[i]);
        }
        i = i + 1;
    }
    None
}

/// `name` holds no `:`.
pub open spec fn colon_free(name: Seq<char>) -> bool {
    forall|i: int| 0 <= i < name.len() ==> name[i] != ':'
}

/// The module part of a symbol's FQN is its module: for a name without a
/// `:`, the part before the last `::` of `qualified(module, name)` is
/// `module` (nothing for an anonymous module).
pub proof fn lemma_symbol_module_of_qualified(module: Seq<char>, name: Seq<char>)
    requires
        colon_free(name),
    ensures
        symbol_module_of(qualified(module, name)) == module,
    decreases name.len(),
{
    if module.len() == 0 {
        lemma_colon_free_module(name);
    } else {
        let f = qualified(module, name);
        reveal_strlit("::");
        if name.len() == 0 {
            assert(f =~= module + seq![':', ':']);
            assert(f.take(f.len() - 2) =~= module);
        } else {
            assert(f.drop_last() =~= qualified(module, name.drop_last()));
            assert(f[f.len() - 1] == name.last());
            lemma_symbol_module_of_qualified(module, name.drop_last());
        }
    }
}

/// A name without a `:` has no module part.
proof fn lemma_colon_free_module(name: Seq<char>)
    requires
        colon_free(name),
    ensures
        symbol_module_of(name) == Seq::<char>::empty(),
    decreases name.len(),
{
    if name.len() >= 2 {
        assert(name[name.len() - 1] != ':');
        lemma_colon_free_module(name.drop_last());
    }
}

// ----- members and fieldless variants --------------------------------------

/// What kind of member a [`Member`] is.
#[derive(Debug, Clone, Copy, PartialEq, Eq, Structural)]
pub enum MemberKind {
    /// A callable declared in a node body.
    Callable,
    /// A field of a `data` record.
    Field,
}

/// A member reachable through `.` from a node or `data` owner: a callable
/// or a record field.
#[derive(Debug, Clone, PartialEq, Eq)]
pub struct Member {
    /// The member's name.
    pub name: String,
    /// Whether it is a callable or a field.
    pub kind: MemberKind,
    /// Span of the member's name.
    pub span: Span,
    /// A one-line signature (`run(name: string): uuid`).
    pub detail: String,
    /// A field's type, or a callable's return type (`void` when absent).
    pub ty: String,
    /// A callable's parameter types, in order; empty for a field.
    pub param_types: Vec<String>,
    /// A callable's `///` summary, its lines joined by spaces.
    pub doc: Option<String>,
    /// Whether the member is `public` (a field always is).
    pub is_public: bool,
}

/// A member as plain values.
pub type MemberView = (Seq<char>, MemberKind, Span, Seq<char>, Seq<char>, Seq<Seq<char>>, Option<Seq<char>>, bool);

/// The plain-value view of a member.
pub open spec fn member_view(m: Member) -> MemberView {
    (
        m.name@,
        m.kind,
        m.span,
        m.detail@,
        m.ty@,
        m.param_types@.map_values(|t: String| t@),
        match m.doc {
            Some(d) => Some(d@),
            None => None,
        },
        m.is_public,
    )
}

/// The plain-value views of members.
pub open spec fn member_views(ms: Seq<Member>) -> Seq<MemberView> {
    ms.map_values(|m: Member| member_view(m))
}

/// The member of a record field: `name: Type`.
pub open spec fn field_spec(f: Field) -> MemberView {
    (
        f.name.name@,
        MemberKind::Field,
        f.name.span,
        f.name.name@ + ": "@ + type_text(f.ty),
        type_text(f.ty),
        seq![],
        None,
        true,
    )
}

/// A callable's one-line signature: `run(name: string): uuid`; a `void`
/// (absent) return type is omitted.
pub open spec fn detail_of(c: Callable) -> Seq<char> {
    c.name.name@ + "("@ + joined(c.params@.map_values(|p: Param| p.name.name@ + ": "@ + type_text(p.ty)), ", "@) + ")"@
        + match c.return_ty {
        Some(t) => ": "@ + type_text(t),
        None => seq![],
    }
}

/// A `///` summary joined by spaces, or nothing without one.
pub open spec fn summary_of(d: DocBlock) -> Option<Seq<char>> {
    if d.summary@.len() == 0 {
        None
    } else {
        Some(joined(d.summary@.map_values(|l: String| l@), " "@))
    }
}

/// The member of a callable.
pub open spec fn callable_spec(c: Callable) -> MemberView {
    (
        c.name.name@,
        MemberKind::Callable,
        c.name.span,
        detail_of(c),
        match c.return_ty {
            Some(t) => type_text(t),
            None => "void"@,
        },
        c.params@.map_values(|p: Param| type_text(p.ty)),
        summary_of(c.doc),
        c.is_public,
    )
}

/// An owner's member list as plain values.
pub type MembersView = (Seq<char>, Seq<MemberView>);

/// The callables among body members, in order.
pub open spec fn callables_of(ms: Seq<BodyMember>) -> Seq<MemberView>
    decreases ms.len(),
{
    if ms.len() == 0 {
        seq![]
    } else {
        callables_of(ms.drop_last()) + match ms.last() {
            BodyMember::Callable(c) => seq![callable_spec(c)],
            BodyMember::Decl(_) => seq![],
        }
    }
}

/// The member lists a declaration records, in order: those of the
/// declarations nested in a node, then the node's callables (when it has
/// any); a record's fields.
pub open spec fn decl_member_puts(d: Decl) -> Seq<MembersView>
    decreases d,
{
    match d.kind {
        DeclKind::Person(n) => node_member_puts(n),
        DeclKind::System(n) => node_member_puts(n),
        DeclKind::Container(n) => node_member_puts(n),
        DeclKind::Component(n) => node_member_puts(n),
        DeclKind::Data(data) => match data.body {
            DataBody::Record(fs) => seq![(data.name.name@, fs@.map_values(|f: Field| field_spec(f)))],
            _ => seq![],
        },
        DeclKind::Constant(_) => seq![],
    }
}

/// The member lists a node records.
pub open spec fn node_member_puts(n: Node) -> Seq<MembersView>
    decreases n,
{
    match n.body {
        Some(ms) => nested_member_puts(ms@) + if callables_of(ms@).len() > 0 {
            seq![(n.name.name@, callables_of(ms@))]
        } else {
            seq![]
        },
        None => seq![],
    }
}

/// The member lists the declarations among body members record.
pub open spec fn nested_member_puts(ms: Seq<BodyMember>) -> Seq<MembersView>
    decreases ms,
{
    if ms.len() == 0 {
        seq![]
    } else {
        nested_member_puts(ms.subrange(0, ms.len() - 1)) + match ms[ms.len() - 1] {
            BodyMember::Decl(d) => decl_member_puts(d),
            BodyMember::Callable(_) => seq![],
        }
    }
}

/// The member lists a module's items record, in order.
pub open spec fn items_member_puts(items: Seq<Item>) -> Seq<MembersView>
    decreases items.len(),
{
    if items.len() == 0 {
        seq![]
    } else {
        items_member_puts(items.drop_last()) + match items.last() {
            Item::Decl(d) => decl_member_puts(d),
            Item::Feature(_) => seq![],
        }
    }
}

/// The names of a union's fieldless variants, in order.
pub open spec fn fieldless(vs: Seq<Variant>) -> Seq<Seq<char>>
    decreases vs.len(),
{
    if vs.len() == 0 {
        seq![]
    } else {
        fieldless(vs.drop_last()) + if vs.last().record is None {
            seq![vs.last().name.name@]
        } else {
            seq![]
        }
    }
}

/// A union's fieldless variants as plain values.
pub type UnionView = (Seq<char>, Seq<Seq<char>>);

/// The fieldless-variant lists a declaration records: the nested
/// declarations' for a node; a union's, when it has any.
pub open spec fn decl_union_puts(d: Decl) -> Seq<UnionView>
    decreases d,
{
    match d.kind {
        DeclKind::Person(n) => node_union_puts(n),
        DeclKind::System(n) => node_union_puts(n),
        DeclKind::Container(n) => node_union_puts(n),
        DeclKind::Component(n) => node_union_puts(n),
        DeclKind::Data(data) => match data.body {
            DataBody::Union(vs) => if fieldless(vs@).len() > 0 {
                seq![(data.name.name@, fieldless(vs@))]
            } else {
                seq![]
            },
            _ => seq![],
        },
        DeclKind::Constant(_) => seq![],
    }
}

/// The fieldless-variant lists a node's nested declarations record.
pub open spec fn node_union_puts(n: Node) -> Seq<UnionView>
    decreases n,
{
    match n.body {
        Some(ms) => nested_union_puts(ms@),
        None => seq![],
    }
}

/// The fieldless-variant lists the declarations among body members record.
pub open spec fn nested_union_puts(ms: Seq<BodyMember>) -> Seq<UnionView>
    decreases ms,
{
    if ms.len() == 0 {
        seq![]
    } else {
        nested_union_puts(ms.subrange(0, ms.len() - 1)) + match ms[ms.len() - 1] {
            BodyMember::Decl(d) => decl_union_puts(d),
            BodyMember::Callable(_) => seq![],
        }
    }
}

/// The fieldless-variant lists a module's items record, in order.
pub open spec fn items_union_puts(items: Seq<Item>) -> Seq<UnionView>
    decreases items.len(),
{
    if items.len() == 0 {
        seq![]
    } else {
        items_union_puts(items.drop_last()) + match items.last() {
            Item::Decl(d) => decl_union_puts(d),
            Item::Feature(_) => seq![],
        }
    }
}

/// The plain-value views of member lists.
pub open spec fn members_views(ms: Seq<(String, Vec<Member>)>) -> Seq<MembersView> {
    ms.map_values(|m: (String, Vec<Member>)| (m.0@, member_views(m.1@)))
}

/// The plain-value views of fieldless-variant lists.
pub open spec fn union_views(us: Seq<(String, Vec<String>)>) -> Seq<UnionView> {
    us.map_values(|u: (String, Vec<String>)| (u.0@, u.1@.map_values(|v: String| v@)))
}

/// The member of a record field.
fn field_member(f: &Field) -> (m: Member)
    ensures
        member_view(m) == field_spec(*f),
{
    let ty = render_type(&f.ty);
    let mut detail = f.name.name.clone();
    detail.append(": ");
    detail.append(ty.as_str());
    let m = Member {
        name: f.name.name.clone(),
        kind: MemberKind::Field,
        span: f.name.span,
        detail,
        ty,
        param_types: Vec::new(),
        doc: None,
        is_public: true,
    };
    assert(member_view(m) =~= field_spec(*f));
    m
}

/// A callable's one-line signature: `run(name: string): uuid`.
fn callable_detail(c: &Callable) -> (r: String)
    ensures
        r@ == detail_of(*c),
{
    let ghost parts = c.params@.map_values(|p: Param| p.name.name@ + ": "@ + type_text(p.ty));
    let mut out = c.name.name.clone();
    out.append("(");
    let ghost base = out@;
    let mut i: usize = 0;
    assert(parts.take(0) =~= seq![]);
    while i < c.params.len()
        invariant
            i <= c.params@.len(),
            parts == c.params@.map_values(|p: Param| p.name.name@ + ": "@ + type_text(p.ty)),
            out@ == base + joined(parts.take(i as int), ", "@),
        decreases c.params@.len() - i,
    {
        if i > 0 {
            out.append(", ");
        }
        out.append(c.params[i].name.name.as_str());
        out.append(": ");
        let t = render_type(&c.params[i].ty);
        out.append(t.as_str());
        let ghost t1 = parts.take(i + 1);
        assert(t1.drop_last() =~= parts.take(i as int));
        if i == 0 {
            assert(t1.len() == 1);
        }
        assert(out@ =~= base + joined(parts.take(i + 1), ", "@));
        i = i + 1;
    }
    assert(parts.take(c.params@.len() as int) =~= parts);
    out.append(")");
    match &c.return_ty {
        Some(t) => {
            out.append(": ");
            out.append(render_type(t).as_str());
        },
        None => {},
    }
    assert(out@ =~= detail_of(*c));
    out
}

/// A `///` summary joined by spaces, or `None` without one.
pub(crate) fn summary_text(d: &DocBlock) -> (r: Option<String>)
    ensures
        match r {
            Some(s) => summary_of(*d) == Some(s@),
            None => summary_of(*d) is None,
        },
{
    let n = d.summary.len();
    if n == 0 {
        return None;
    }
    let ghost all = d.summary@.map_values(|l: String| l@);
    let mut out = d.summary[0].clone();
    let mut i: usize = 1;
    assert(all.take(1) =~= seq![all[0]]);
    while i < n
        invariant
            1 <= i <= n == d.summary@.len(),
            all == d.summary@.map_values(|l: String| l@),
            out@ == joined(all.take(i as int), " "@),
        decreases n - i,
    {
        out.append(" ");
        out.append(d.summary[i].as_str());
        assert(all.take(i + 1).drop_last() =~= all.take(i as int));
        i = i + 1;
    }
    assert(all.take(n as int) =~= all);
    Some(out)
}

/// The member of a callable.
fn callable_member(c: &Callable) -> (m: Member)
    ensures
        member_view(m) == callable_spec(*c),
{
    let mut param_types: Vec<String> = Vec::new();
    let mut i: usize = 0;
    while i < c.params.len()
        invariant
            i <= c.params@.len(),
            param_types@.map_values(|t: String| t@) == c.params@.take(i as int).map_values(|p: Param| type_text(p.ty)),
        decreases c.params@.len() - i,
    {
        let ghost before = param_types@.map_values(|t: String| t@);
        let t = render_type(&c.params[i].ty);
        param_types.push(t);
        assert(param_types@.map_values(|t: String| t@) =~= before.push(t@));
        assert(c.params@.take(i + 1).map_values(|p: Param| type_text(p.ty)) =~= c.params@.take(i as int).map_values(
            |p: Param| type_text(p.ty),
        ).push(type_text(c.params@[i as int].ty)));
        i = i + 1;
    }
    assert(c.params@.take(c.params@.len() as int) =~= c.params@);
    let ty = match &c.return_ty {
        Some(t) => render_type(t),
        None => String::from_str("void"),
    };
    let m = Member {
        name: c.name.name.clone(),
        kind: MemberKind::Callable,
        span: c.name.span,
        detail: callable_detail(c),
        ty,
        param_types,
        doc: summary_text(&c.doc),
        is_public: c.is_public,
    };
    assert(member_view(m) =~= callable_spec(*c));
    m
}

/// Appends a member list.
proof fn lemma_members_push(ms: Seq<(String, Vec<Member>)>, x: (String, Vec<Member>))
    ensures
        members_views(ms.push(x)) == members_views(ms).push((x.0@, member_views(x.1@))),
{
    assert(members_views(ms.push(x)) =~= members_views(ms).push((x.0@, member_views(x.1@))));
}

/// Appends the member lists a declaration records.
fn collect_members(out: &mut Vec<(String, Vec<Member>)>, decl: &Decl)
    ensures
        members_views(final(out)@) == members_views(old(out)@) + decl_member_puts(*decl),
    decreases decl,
{
    let ghost o0 = members_views(out@);
    match &decl.kind {
        DeclKind::Person(node) | DeclKind::System(node) | DeclKind::Container(node)
        | DeclKind::Component(node) => {
            proof {
                if decl.kind is Person {
                    assert(decreases_to!(decl.kind => decl.kind->Person_0));
                } else if decl.kind is System {
                    assert(decreases_to!(decl.kind => decl.kind->System_0));
                } else if decl.kind is Container {
                    assert(decreases_to!(decl.kind => decl.kind->Container_0));
                } else {
                    assert(decreases_to!(decl.kind => decl.kind->Component_0));
                }
            }
            collect_node_members(out, node);
        },
        DeclKind::Data(data) => {
            match &data.body {
                DataBody::Record(fields) => {
                    let mut ms: Vec<Member> = Vec::new();
                    let mut i: usize = 0;
                    while i < fields.len()
                        invariant
                            i <= fields@.len(),
                            member_views(ms@) == fields@.take(i as int).map_values(|f: Field| field_spec(f)),
                        decreases fields@.len() - i,
                    {
                        let ghost before = member_views(ms@);
                        let m = field_member(&fields[i]);
                        ms.push(m);
                        assert(member_views(ms@) =~= before.push(member_view(m)));
                        assert(fields@.take(i + 1).map_values(|f: Field| field_spec(f)) =~= fields@.take(i as int).map_values(
                            |f: Field| field_spec(f),
                        ).push(field_spec(fields@[i as int])));
                        i = i + 1;
                    }
                    assert(fields@.take(fields@.len() as int) =~= fields@);
                    let x = (data.name.name.clone(), ms);
                    proof {
                        lemma_members_push(out@, x);
                    }
                    out.push(x);
                    assert(members_views(out@) =~= o0 + decl_member_puts(*decl));
                },
                _ => {
                    assert(o0 + seq![] =~= o0);
                },
            }
        },
        DeclKind::Constant(_) => {
            assert(o0 + seq![] =~= o0);
        },
    }
}

/// Appends the member lists a node records.
fn collect_node_members(out: &mut Vec<(String, Vec<Member>)>, node: &Node)
    ensures
        members_views(final(out)@) == members_views(old(out)@) + node_member_puts(*node),
    decreases node,
{
    let ghost o0 = members_views(out@);
    match &node.body {
        None => {
            assert(o0 + seq![] =~= o0);
        },
        Some(body) => {
            proof {
                assert(decreases_to!(*node => node.body));
                assert(decreases_to!(node.body => node.body->0));
            }
            let ghost ms = body@;
            let mut callables: Vec<Member> = Vec::new();
            let mut i: usize = 0;
            assert(ms.subrange(0, 0) =~= seq![]);
            assert(o0 + nested_member_puts(ms.subrange(0, 0)) =~= o0);
            while i < body.len()
                invariant
                    i <= ms.len(),
                    ms == body@,
                    node.body == Some(*body),
                    decreases_to!(*node => *body),
                    members_views(out@) == o0 + nested_member_puts(ms.subrange(0, i as int)),
                    member_views(callables@) == callables_of(ms.subrange(0, i as int)),
                decreases ms.len() - i,
            {
                let ghost t = ms.subrange(0, i + 1);
                assert(t.subrange(0, t.len() - 1) =~= ms.subrange(0, i as int));
                assert(t.drop_last() =~= ms.subrange(0, i as int));
                match &body[i] {
                    BodyMember::Decl(inner) => {
                        proof {
                            assert(decreases_to!(*body => body@));
                            assert(decreases_to!(body@ => body@[i as int]));
                            assert(decreases_to!(body@[i as int] => *inner));
                        }
                        collect_members(out, inner);
                    },
                    BodyMember::Callable(c) => {
                        let ghost before = member_views(callables@);
                        let m = callable_member(c);
                        callables.push(m);
                        assert(member_views(callables@) =~= before.push(member_view(m)));
                    },
                }
                assert(members_views(out@) =~= o0 + nested_member_puts(ms.subrange(0, i + 1)));
                i = i + 1;
            }
            assert(ms.subrange(0, ms.len() as int) =~= ms);
            let ghost o1 = members_views(out@);
            if callables.len() > 0 {
                let x = (node.name.name.clone(), callables);
                proof {
                    lemma_members_push(out@, x);
                }
                out.push(x);
            }
            assert(members_views(out@) =~= o0 + node_member_puts(*node));
        },
    }
}

/// Appends a fieldless-variant list.
proof fn lemma_unions_push(us: Seq<(String, Vec<String>)>, x: (String, Vec<String>))
    ensures
        union_views(us.push(x)) == union_views(us).push((x.0@, x.1@.map_values(|v: String| v@))),
{
    assert(union_views(us.push(x)) =~= union_views(us).push((x.0@, x.1@.map_values(|v: String| v@))));
}

/// Appends the fieldless-variant lists a declaration records.
fn collect_unions(out: &mut Vec<(String, Vec<String>)>, decl: &Decl)
    ensures
        union_views(final(out)@) == union_views(old(out)@) + decl_union_puts(*decl),
    decreases decl,
{
    let ghost o0 = union_views(out@);
    match &decl.kind {
        DeclKind::Person(node) | DeclKind::System(node) | DeclKind::Container(node)
        | DeclKind::Component(node) => {
            proof {
                if decl.kind is Person {
                    assert(decreases_to!(decl.kind => decl.kind->Person_0));
                } else if decl.kind is System {
                    assert(decreases_to!(decl.kind => decl.kind->System_0));
                } else if decl.kind is Container {
                    assert(decreases_to!(decl.kind => decl.kind->Container_0));
                } else {
                    assert(decreases_to!(decl.kind => decl.kind->Component_0));
                }
            }
            match &node.body {
                None => {
                    assert(o0 + seq![] =~= o0);
                },
                Some(body) => {
                    proof {
                        assert(decreases_to!(*node => node.body));
                        assert(decreases_to!(node.body => node.body->0));
                    }
                    let ghost ms = body@;
                    let mut i: usize = 0;
                    assert(ms.subrange(0, 0) =~= seq![]);
                    assert(o0 + nested_union_puts(ms.subrange(0, 0)) =~= o0);
                    while i < body.len()
                        invariant
                            i <= ms.len(),
                            ms == body@,
                            node.body == Some(*body),
                            decreases_to!(*decl => *body),
                            union_views(out@) == o0 + nested_union_puts(ms.subrange(0, i as int)),
                        decreases ms.len() - i,
                    {
                        let ghost t = ms.subrange(0, i + 1);
                        assert(t.subrange(0, t.len() - 1) =~= ms.subrange(0, i as int));
                        match &body[i] {
                            BodyMember::Decl(inner) => {
                                proof {
                                    assert(decreases_to!(*body => body@));
                                    assert(decreases_to!(body@ => body@[i as int]));
                                    assert(decreases_to!(body@[i as int] => *inner));
                                }
                                collect_unions(out, inner);
                            },
                            BodyMember::Callable(_) => {},
                        }
                        assert(union_views(out@) =~= o0 + nested_union_puts(ms.subrange(0, i + 1)));
                        i = i + 1;
                    }
                    assert(ms.subrange(0, ms.len() as int) =~= ms);
                    assert(union_views(out@) =~= o0 + decl_union_puts(*decl));
                },
            }
        },
        DeclKind::Data(data) => {
            match &data.body {
                DataBody::Union(vs) => {
                    let mut names: Vec<String> = Vec::new();
                    let mut i: usize = 0;
                    assert(vs@.take(0) =~= seq![]);
                    while i < vs.len()
                        invariant
                            i <= vs@.len(),
                            names@.map_values(|v: String| v@) == fieldless(vs@.take(i as int)),
                        decreases vs@.len() - i,
                    {
                        assert(vs@.take(i + 1).drop_last() =~= vs@.take(i as int));
                        let ghost before = names@.map_values(|v: String| v@);
                        if vs[i].record.is_none() {
                            names.push(vs[i].name.name.clone());
                            assert(names@.map_values(|v: String| v@) =~= before.push(vs@[i as int].name.name@));
                        }
                        assert(names@.map_values(|v: String| v@) =~= fieldless(vs@.take(i + 1)));
                        i = i + 1;
                    }
                    assert(vs@.take(vs@.len() as int) =~= vs@);
                    if names.len() > 0 {
                        let x = (data.name.name.clone(), names);
                        proof {
                            lemma_unions_push(out@, x);
                        }
                        out.push(x);
                    }
                    assert(union_views(out@) =~= o0 + decl_union_puts(*decl));
                },
                _ => {
                    assert(o0 + seq![] =~= o0);
                },
            }
        },
        DeclKind::Constant(_) => {
            assert(o0 + seq![] =~= o0);
        },
    }
}

/// Splitting off the last segment undoes joining it: a name without `:`
/// appended to a module path after `::` gives that module path back, and a
/// bare such name has no module part.
pub proof fn law_module_of_join(m: Seq<char>, n: Seq<char>)
    requires
        forall|j: int| 0 <= j < n.len() ==> n[j] != ':',
    ensures
        symbol_module_of(m + seq![':', ':'] + n) == m,
        symbol_module_of(n) == Seq::<char>::empty(),
    decreases n.len(),
{
    let f = m + seq![':', ':'] + n;
    if n.len() == 0 {
        assert(f =~= m + seq![':', ':']);
        assert(f.take(f.len() - 2) =~= m);
    } else {
        let n2 = n.drop_last();
        law_module_of_join(m, n2);
        assert(f.drop_last() =~= m + seq![':', ':'] + n2);
        assert(f[f.len() - 1] == n[n.len() - 1]);
        if n.len() >= 2 {
            assert(n[n.len() - 2] != ':');
        }
        assert(n.drop_last() == n2);
    }
}

} // verus!
