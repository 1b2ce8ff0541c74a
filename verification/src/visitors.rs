//! Various visitors for working with AST.

use std::collections::VecDeque;
use vstd::prelude::*;
use crate::ast::{
    directives_view, lemma_directives_view, pattern_values, patterns_view, patterns_with, seq_view,
    AccessLog, Directive, DirectiveView, IfCondition, Item, ItemView, Main, MapBlock, MapPattern,
    ProxyCacheValid, Return, TryFilesLastOption,
};
use crate::value::{value_replaced, Value, ValueView};

verus! {

/// Whether `g` can make `after` of `before`.
pub open spec fn value_mapped<G: Fn(&Value) -> Value>(g: G, before: ValueView, after: ValueView)
    -> bool {
    exists|b: Value, a: Value| b@ == before && a@ == after && call_ensures(g, (&b,), a)
}

/// Whether `g` can make each value of `after` of the value of `before` at
/// the same place.
pub open spec fn values_mapped<G: Fn(&Value) -> Value>(
    g: G,
    before: Seq<ValueView>,
    after: Seq<ValueView>,
) -> bool {
    &&& after.len() == before.len()
    &&& forall|k: int| 0 <= k < before.len() ==> value_mapped(g, before[k], #[trigger] after[k])
}

/// Whether `after` is `before` with each value that the directive holds
/// itself replaced by what `g` makes of it. The directives of a block
/// stay as they are.
pub open spec fn item_mapped<G: Fn(&Value) -> Value>(g: G, before: ItemView, after: ItemView)
    -> bool {
    &&& after == before.with_values(after.values())
    &&& values_mapped(g, before.values(), after.values())
}

/// Puts what `g` makes of the value in its place.
fn map_one<G: Fn(&Value) -> Value>(v: &mut Value, g: &G)
    requires
        forall|x: &Value| call_requires(*g, (x,)),
    ensures
        value_mapped(*g, old(v)@, final(v)@),
{
    let n = g(&*v);
    *v = n;
}

/// Puts what `g` makes of each value of `list` in its place.
fn map_all<G: Fn(&Value) -> Value>(list: &mut Vec<Value>, g: &G)
    requires
        forall|x: &Value| call_requires(*g, (x,)),
    ensures
        values_mapped(*g, seq_view(old(list)@), seq_view(final(list)@)),
{
    let mut i: usize = 0;
    while i < list.len()
        invariant
            i <= list.len(),
            list.len() == old(list).len(),
            forall|x: &Value| call_requires(*g, (x,)),
            forall|k: int|
                0 <= k < i ==> value_mapped(*g, old(list)@[k]@, #[trigger] list@[k]@),
            forall|k: int| i <= k < list.len() ==> list@[k] == old(list)@[k],
        decreases list.len() - i,
    {
        let n = g(&list[i]);
        list.set(i, n);
        i += 1;
    }
    assert forall|k: int| 0 <= k < seq_view(old(list)@).len() implies value_mapped(
        *g,
        seq_view(old(list)@)[k],
        #[trigger] seq_view(list@)[k],
    ) by {
        assert(seq_view(list@)[k] == list@[k]@);
    }
}

/// Puts what `g` makes of the value of each pattern of `list` in its
/// place.
fn map_patterns<G: Fn(&Value) -> Value>(list: &mut Vec<(MapPattern, Value)>, g: &G)
    requires
        forall|x: &Value| call_requires(*g, (x,)),
    ensures
        patterns_view(final(list)@) == patterns_with(
            patterns_view(old(list)@),
            pattern_values(patterns_view(final(list)@)),
        ),
        values_mapped(
            *g,
            pattern_values(patterns_view(old(list)@)),
            pattern_values(patterns_view(final(list)@)),
        ),
{
    let mut i: usize = 0;
    while i < list.len()
        invariant
            i <= list.len(),
            list.len() == old(list).len(),
            forall|x: &Value| call_requires(*g, (x,)),
            forall|k: int| 0 <= k < list.len() ==> (#[trigger] list@[k]).0 == old(list)@[k].0,
            forall|k: int|
                0 <= k < i ==> value_mapped(*g, old(list)@[k].1@, (#[trigger] list@[k]).1@),
            forall|k: int| i <= k < list.len() ==> list@[k] == old(list)@[k],
        decreases list.len() - i,
    {
        let n = g(&list[i].1);
        list[i].1 = n;
        i += 1;
    }
    proof {
        let before = patterns_view(old(list)@);
        let after = patterns_view(list@);
        assert(after =~= patterns_with(before, pattern_values(after)));
        assert forall|k: int| 0 <= k < pattern_values(before).len() implies value_mapped(
            *g,
            pattern_values(before)[k],
            #[trigger] pattern_values(after)[k],
        ) by {
            assert(pattern_values(after)[k] == list@[k].1@);
            assert(pattern_values(before)[k] == old(list)@[k].1@);
        }
    }
}

impl IfCondition {
    /// Puts what `g` makes of the value that the condition tests in its
    /// place.
    pub fn map_value<G: Fn(&Value) -> Value>(&mut self, g: &G)
        requires
            forall|x: &Value| call_requires(*g, (x,)),
        ensures
            final(self)@ == old(self)@.with_value(final(self)@.value()),
            value_mapped(*g, old(self)@.value(), final(self)@.value()),
    {
        match self {
            IfCondition::NonEmpty(v) => map_one(v, g),
            IfCondition::Eq(v, _) => map_one(v, g),
            IfCondition::Neq(v, _) => map_one(v, g),
            IfCondition::RegEq(v, _, _) => map_one(v, g),
            IfCondition::RegNeq(v, _, _) => map_one(v, g),
            IfCondition::Exists(v) => map_one(v, g),
            IfCondition::NotExists(v) => map_one(v, g),
            IfCondition::FileExists(v) => map_one(v, g),
            IfCondition::FileNotExists(v) => map_one(v, g),
            IfCondition::DirExists(v) => map_one(v, g),
            IfCondition::DirNotExists(v) => map_one(v, g),
            IfCondition::Executable(v) => map_one(v, g),
            IfCondition::NotExecutable(v) => map_one(v, g),
        }
    }
}

impl MapBlock {
    /// Puts what `g` makes of each value of the block in its place.
    pub fn map_values<G: Fn(&Value) -> Value>(&mut self, g: &G)
        requires
            forall|x: &Value| call_requires(*g, (x,)),
        ensures
            final(self)@ == old(self)@.with_values(final(self)@.values()),
            values_mapped(*g, old(self)@.values(), final(self)@.values()),
    {
        map_one(&mut self.expression, g);
        match &mut self.default {
            Some(d) => map_one(d, g),
            None => {},
        }
        map_patterns(&mut self.patterns, g);
        proof {
            let before = old(self)@;
            let after = self@;
            let vs = after.values();
            match before.default {
                Some(_) => {
                    assert(vs.skip(2) =~= pattern_values(after.patterns));
                },
                None => {
                    assert(vs.skip(1) =~= pattern_values(after.patterns));
                },
            }
        }
    }
}

impl Item {
    /// Puts what `g` makes of each value that the directive holds itself
    /// in its place. The values of the directives in its block are not
    /// touched.
    #[verifier::rlimit(80)]
    #[verifier::spinoff_prover]
    pub fn map_values<G: Fn(&Value) -> Value>(&mut self, g: &G)
        requires
            forall|x: &Value| call_requires(*g, (x,)),
        ensures
            item_mapped(*g, old(self)@, final(self)@),
            final(self).kids() == old(self).kids(),
    {
        match self {
            Item::ProxyPass(v) => map_one(v, g),
            Item::ProxyMethod(v) => map_one(v, g),
            Item::ProxyReadTimeout(v) => map_one(v, g),
            Item::ProxyConnectTimeout(v) => map_one(v, g),
            Item::ProxyHideHeader(v) => map_one(v, g),
            Item::ProxyPassHeader(v) => map_one(v, g),
            Item::ProxyCache(v) => map_one(v, g),
            Item::ProxyCacheKey(v) => map_one(v, g),
            Item::ProxyNextUpstreamTries(v) => map_one(v, g),
            Item::ProxyNextUpstreamTimeout(v) => map_one(v, g),
            Item::Root(v) => map_one(v, g),
            Item::Alias(v) => map_one(v, g),
            Item::DefaultType(v) => map_one(v, g),
            Item::ClientMaxBodySize(v) => map_one(v, g),
            Item::Include(v) => map_one(v, g),
            Item::ServerTokens(v) => map_one(v, g),
            Item::SslCertificate(v) => map_one(v, g),
            Item::SslCertificateKey(v) => map_one(v, g),
            Item::RewriteByLuaFile(v) => map_one(v, g),
            Item::BalancerByLuaFile(v) => map_one(v, g),
            Item::AccessByLuaFile(v) => map_one(v, g),
            Item::HeaderFilterByLuaFile(v) => map_one(v, g),
            Item::ContentByLuaFile(v) => map_one(v, g),
            Item::BodyFilterByLuaFile(v) => map_one(v, g),
            Item::LogByLuaFile(v) => map_one(v, g),
            Item::LuaNeedRequestBody(v) => map_one(v, g),
            Item::SslCertificateByLuaFile(v) => map_one(v, g),
            Item::SslSessionFetchByLuaFile(v) => map_one(v, g),
            Item::SslSessionStoreByLuaFile(v) => map_one(v, g),
            Item::RealIpHeader(v) => map_one(v, g),
            Item::ProxySetHeader { field, value } => {
                map_one(field, g);
                map_one(value, g);
            },
            Item::AddHeader(h) => {
                map_one(&mut h.field, g);
                map_one(&mut h.value, g);
            },
            Item::Expires(e) => map_one(&mut e.value, g),
            Item::ErrorPage(e) => map_one(&mut e.uri, g),
            Item::ErrorLog { file, level } => map_one(file, g),
            Item::Rewrite(r) => map_one(&mut r.replacement, g),
            Item::Return(Return::Redirect { code, url }) => map_one(url, g),
            Item::Return(Return::Text { code, text: Some(t) }) => map_one(t, g),
            Item::If(i) => i.condition.map_value(g),
            Item::TryFiles(t) => {
                map_all(&mut t.options, g);
                match &mut t.last_option {
                    TryFilesLastOption::Uri(v) => {
                        map_one(v, g);
                        proof {
                            let after = self@.values();
                            assert(after.drop_last() =~= self@->TryFiles_0.options);
                        }
                    },
                    _ => {},
                }
            },
            Item::KeepaliveTimeout(a, b) => {
                map_one(a, g);
                match b {
                    Some(v) => map_one(v, g),
                    None => {},
                }
            },
            Item::SetVar { variable, value } => map_one(value, g),
            Item::MapBlock(m) => m.map_values(g),
            Item::AccessLog(AccessLog::On(o)) => {
                map_one(&mut o.path, g);
                match &mut o.condition {
                    Some(c) => map_one(c, g),
                    None => {},
                }
            },
            Item::ProxyCacheValid(v) => match v {
                ProxyCacheValid::Normal(t) => map_one(t, g),
                ProxyCacheValid::Specific(_, t) => map_one(t, g),
                ProxyCacheValid::Any(t) => map_one(t, g),
            },
            Item::Index(v) => map_all(v, g),
            _ => {},
        }
    }
}

/// Whether `after` is `before` with the variables of its values replaced
/// by `f`, value for value.
pub open spec fn values_replaced<F: Fn(&str) -> Option<String>>(
    f: F,
    before: Seq<ValueView>,
    after: Seq<ValueView>,
) -> bool {
    &&& after.len() == before.len()
    &&& forall|k: int| 0 <= k < before.len() ==> value_replaced(f, before[k], #[trigger] after[k])
}

/// Whether `after` is `before` with the variables replaced by `f` in
/// every value of the directive and of the directives in its block, and
/// nothing else changed.
pub open spec fn item_replaced<F: Fn(&str) -> Option<String>>(
    f: F,
    before: ItemView,
    after: ItemView,
) -> bool
    decreases before,
{
    &&& after.with_children(Seq::empty()) == before.with_children(Seq::empty()).with_values(
        after.values(),
    )
    &&& values_replaced(f, before.values(), after.values())
    &&& match before {
        ItemView::Http(b) => after.children() is Some && directives_replaced(
            f,
            b.directives,
            after.children()->0,
        ),
        ItemView::Server(b) => after.children() is Some && directives_replaced(
            f,
            b.directives,
            after.children()->0,
        ),
        ItemView::Location(b) => after.children() is Some && directives_replaced(
            f,
            b.directives,
            after.children()->0,
        ),
        ItemView::LimitExcept(b) => after.children() is Some && directives_replaced(
            f,
            b.directives,
            after.children()->0,
        ),
        ItemView::If(b) => after.children() is Some && directives_replaced(
            f,
            b.directives,
            after.children()->0,
        ),
        _ => after.children() is None,
    }
}

/// Whether `after` is `before` with the variables replaced by `f` in
/// every value of every directive, at any depth: as many directives, each
/// at its position.
pub open spec fn directives_replaced<F: Fn(&str) -> Option<String>>(
    f: F,
    before: Seq<DirectiveView>,
    after: Seq<DirectiveView>,
) -> bool
    decreases before,
{
    &&& after.len() == before.len()
    &&& forall|k: int|
        0 <= k < before.len() ==> (#[trigger] after[k]).position == before[k].position
            && item_replaced(f, before[k].item, after[k].item)
}

/// Replaces the variables in the values of the directive and of the
/// directives in its block.
fn replace_item<F: Fn(&str) -> Option<String>>(item: &mut Item, f: &F)
    requires
        forall|name: &str| call_requires(*f, (name,)),
    ensures
        item_replaced(*f, old(item)@, final(item)@),
    decreases *old(item),
{
    let g = |v: &Value| -> (r: Value)
        requires
            forall|name: &str| call_requires(*f, (name,)),
        ensures
            value_replaced(*f, v@, r@),
        {
            let mut c = v.copy();
            c.replace_vars(f);
            c
        };
    item.map_values(&g);
    let ghost mid = item@;
    proof {
        assert forall|k: int| 0 <= k < old(item)@.values().len() implies value_replaced(
            *f,
            old(item)@.values()[k],
            #[trigger] mid.values()[k],
        ) by {
            assert(value_mapped(g, old(item)@.values()[k], mid.values()[k]));
        }
        assert(values_replaced(*f, old(item)@.values(), mid.values()));
    }
    match item {
        Item::Http(h) => {
            replace_in(&mut h.directives, f);
        },
        Item::Server(h) => {
            replace_in(&mut h.directives, f);
        },
        Item::Location(h) => {
            replace_in(&mut h.directives, f);
        },
        Item::LimitExcept(h) => {
            replace_in(&mut h.directives, f);
        },
        Item::If(h) => {
            replace_in(&mut h.directives, f);
        },
        _ => {},
    }
    proof {
        assert(item@.values() == mid.values());
        assert(item@.with_children(Seq::empty()) == mid.with_children(Seq::empty()));
    }
}

/// Replaces the variables in the values of all directives of `dirs`, at
/// any depth.
fn replace_in<F: Fn(&str) -> Option<String>>(dirs: &mut Vec<Directive>, f: &F)
    requires
        forall|name: &str| call_requires(*f, (name,)),
    ensures
        directives_replaced(*f, directives_view(old(dirs)@), directives_view(final(dirs)@)),
    decreases *old(dirs),
{
    let mut i: usize = 0;
    while i < dirs.len()
        invariant
            i <= dirs.len(),
            dirs.len() == old(dirs).len(),
            forall|name: &str| call_requires(*f, (name,)),
            forall|k: int|
                0 <= k < i ==> (#[trigger] dirs@[k]).position == old(dirs)@[k].position
                    && item_replaced(*f, old(dirs)@[k].item@, dirs@[k].item@),
            forall|k: int| i <= k < dirs.len() ==> dirs@[k] == old(dirs)@[k],
        decreases dirs.len() - i,
    {
        proof {
            broadcast use vstd::std_specs::vec::axiom_vec_index_decreases;
        }
        replace_item(&mut dirs[i].item, f);
        i += 1;
    }
    proof {
        lemma_directives_view(old(dirs)@);
        lemma_directives_view(dirs@);
        let before = directives_view(old(dirs)@);
        let after = directives_view(dirs@);
        assert forall|k: int| 0 <= k < before.len() implies (#[trigger] after[k]).position
            == before[k].position && item_replaced(*f, before[k].item, after[k].item) by {
            assert(after[k] == dirs@[k]@);
            assert(before[k] == old(dirs)@[k]@);
        }
    }
}

/// A recursive mutable visitor of all variable values.
///
/// This function allows to replace all occurrences of some variable. If
/// `f` returns `None` the variable is skipped.
pub fn replace_vars<F: Fn(&str) -> Option<String>>(dirs: &mut Vec<Directive>, f: F)
    requires
        forall|name: &str| call_requires(f, (name,)),
    ensures
        directives_replaced(f, directives_view(old(dirs)@), directives_view(final(dirs)@)),
{
    replace_in(dirs, &f);
}

/// Whether `after` is `before` but for the values that the directive
/// holds itself: as many values, each at the place of one of `before`.
pub open spec fn same_but_values(before: ItemView, after: ItemView) -> bool {
    &&& after == before.with_values(after.values())
    &&& after.values().len() == before.values().len()
}

/// Whether `k` is the place of a value in `list`.
pub open spec fn is_place(list: Seq<ValueView>, k: int) -> bool {
    0 <= k < list.len()
}

impl Item {
    /// Executes function on all the Value things (not recursively).
    ///
    /// The callback isn't called for directives inside the `{ block }`.
    /// Each value that the directive holds itself becomes what one call
    /// of `f` leaves of it; nothing else changes.
    pub fn visit_values_mut<F: Fn(&mut Value)>(&mut self, f: &F)
        requires
            forall|v: &mut Value| call_requires(*f, (v,)),
        ensures
            same_but_values(old(self)@, final(self)@),
            forall|k: int|
                #![trigger is_place(old(self)@.values(), k)]
                #![trigger final(self)@.values()[k]]
                is_place(old(self)@.values(), k) ==> exists|x: &mut Value|
                    #![trigger call_ensures(*f, (x,), ())]
                    (*x)@ == old(self)@.values()[k] && (*final(x))@ == final(self)@.values()[k]
                        && call_ensures(*f, (x,), ()),
    {
        let g = |v: &Value| -> (r: Value)
            requires
                forall|x: &mut Value| call_requires(*f, (x,)),
            ensures
                exists|x: &mut Value|
                    #![trigger call_ensures(*f, (x,), ())]
                    (*x)@ == v@ && (*final(x))@ == r@ && call_ensures(*f, (x,), ()),
            {
                let mut c = v.copy();
                f(&mut c);
                c
            };
        self.map_values(&g);
        proof {
            assert forall|k: int|
                #![trigger is_place(old(self)@.values(), k)]
                is_place(old(self)@.values(), k) implies exists|x: &mut Value|
                #![trigger call_ensures(*f, (x,), ())]
                (*x)@ == old(self)@.values()[k] && (*final(x))@ == final(self)@.values()[k]
                    && call_ensures(*f, (x,), ()) by {
                let before = old(self)@.values()[k];
                let after = self@.values()[k];
                assert(value_mapped(g, before, after));
                let (b, a) = choose|b: Value, a: Value|
                    b@ == before && a@ == after && call_ensures(g, (&b,), a);
                assert(call_ensures(g, (&b,), a));
            }
        }
    }
}

impl Directive {
    /// Executes function on all the Value things (not recursively).
    ///
    /// This is useful for substituting variables. The callback isn't
    /// called for directives inside the `{ block }`.
    pub fn visit_values_mut<F: Fn(&mut Value)>(&mut self, f: F)
        requires
            forall|v: &mut Value| call_requires(f, (v,)),
        ensures
            final(self)@.position == old(self)@.position,
            same_but_values(old(self)@.item, final(self)@.item),
            forall|k: int|
                #![trigger is_place(old(self)@.item.values(), k)]
                #![trigger final(self)@.item.values()[k]]
                is_place(old(self)@.item.values(), k) ==> exists|x: &mut Value|
                    #![trigger call_ensures(f, (x,), ())]
                    (*x)@ == old(self)@.item.values()[k] && (*final(x))@
                        == final(self)@.item.values()[k] && call_ensures(f, (x,), ()),
    {
        self.item.visit_values_mut(&f)
    }
}

/// The directives of `list` and of their blocks, at any depth: each
/// directive, then what its block holds, then the directives behind it.
pub open spec fn flatten(list: Seq<DirectiveView>) -> Seq<DirectiveView>
    decreases list,
{
    if list.len() == 0 {
        Seq::empty()
    } else {
        flatten(list.drop_last()) + seq![list.last()] + match list.last().item {
            ItemView::Http(b) => flatten(b.directives),
            ItemView::Server(b) => flatten(b.directives),
            ItemView::Location(b) => flatten(b.directives),
            ItemView::LimitExcept(b) => flatten(b.directives),
            ItemView::If(b) => flatten(b.directives),
            _ => Seq::empty(),
        }
    }
}

/// What is inside the block of `d`, at any depth.
pub open spec fn below(d: DirectiveView) -> Seq<DirectiveView> {
    match d.item.children() {
        Some(c) => flatten(c),
        None => Seq::empty(),
    }
}

/// Flattening a list is flattening its last directive behind the rest.
pub proof fn lemma_flatten_last(list: Seq<DirectiveView>)
    requires
        list.len() > 0,
    ensures
        flatten(list) == flatten(list.drop_last()) + seq![list.last()] + below(list.last()),
{
}

/// Flattening two lists one behind the other is flattening each.
pub proof fn lemma_flatten_concat(a: Seq<DirectiveView>, b: Seq<DirectiveView>)
    ensures
        flatten(a + b) == flatten(a) + flatten(b),
    decreases b.len(),
{
    if b.len() == 0 {
        assert(a + b =~= a);
        assert(flatten(b) =~= Seq::<DirectiveView>::empty());
        assert(flatten(a) + flatten(b) =~= flatten(a));
    } else {
        lemma_flatten_concat(a, b.drop_last());
        lemma_flatten_last(b);
        assert((a + b).drop_last() =~= a + b.drop_last());
        assert((a + b).last() == b.last());
        lemma_flatten_last(a + b);
        assert(flatten(a + b) =~= flatten(a) + flatten(b));
    }
}

/// Flattening a list is flattening its first directive before the rest.
pub proof fn lemma_flatten_first(list: Seq<DirectiveView>)
    requires
        list.len() > 0,
    ensures
        flatten(list) == seq![list[0]] + below(list[0]) + flatten(list.skip(1)),
{
    let head = seq![list[0]];
    assert(list =~= head + list.skip(1));
    lemma_flatten_concat(head, list.skip(1));
    lemma_flatten_last(head);
    assert(head.drop_last() =~= Seq::<DirectiveView>::empty());
    assert(flatten(head.drop_last()) =~= Seq::<DirectiveView>::empty());
    assert(flatten(head) =~= seq![list[0]] + below(list[0]));
}

/// What a stack of directives still gives: the directive on top with what
/// is inside its block, then the same for each directive below it.
pub open spec fn pending(stack: Seq<&Directive>) -> Seq<DirectiveView>
    decreases stack.len(),
{
    if stack.len() == 0 {
        Seq::empty()
    } else {
        seq![stack.last()@] + below(stack.last()@) + pending(stack.drop_last())
    }
}

/// A deep iterator over all directives in configuration file or a part of
/// it.
#[derive(Debug)]
pub struct DirectiveIter<'a> {
    cur: Option<&'a Directive>,
    queue: VecDeque<&'a Directive>,
}

impl<'a> DirectiveIter<'a> {
    /// The directives that the iterator has not given yet, in the order
    /// in which it will give them.
    pub closed spec fn remaining(&self) -> Seq<DirectiveView> {
        match self.cur {
            Some(d) => below(d@) + pending(self.queue@),
            None => pending(self.queue@),
        }
    }

    /// Puts the directives of `list` on the stack, the first on top.
    fn stack(queue: &mut VecDeque<&'a Directive>, list: &'a [Directive])
        ensures
            pending(final(queue)@) == flatten(directives_view(list@)) + pending(old(queue)@),
    {
        let n = list.len();
        let mut i: usize = n;
        let ghost all = directives_view(list@);
        proof {
            lemma_directives_view(list@);
            assert(all.skip(n as int) =~= Seq::<DirectiveView>::empty());
            assert(flatten(all.skip(n as int)) + pending(queue@) =~= pending(queue@));
        }
        while i > 0
            invariant
                i <= n,
                n == list.len(),
                all == directives_view(list@),
                all.len() == n,
                forall|k: int| 0 <= k < n ==> all[k] == #[trigger] list@[k]@,
                pending(queue@) == flatten(all.skip(i as int)) + pending(old(queue)@),
            decreases i,
        {
            i -= 1;
            let ghost before = queue@;
            queue.push_back(&list[i]);
            proof {
                let rest = all.skip(i as int);
                assert(queue@.drop_last() =~= before);
                assert(rest[0] == list@[i as int]@);
                assert(rest.skip(1) =~= all.skip(i + 1));
                lemma_flatten_first(rest);
                assert(pending(queue@) =~= flatten(rest) + pending(old(queue)@));
            }
        }
        assert(all.skip(0) =~= all);
    }

    /// Start depth-first iteration over config.
    ///
    /// Usually you want to use `Main::all_directives` instead.
    pub fn depth_first(start: &'a [Directive]) -> (r: DirectiveIter<'a>)
        ensures
            r.remaining() == flatten(directives_view(start@)),
    {
        let mut queue: VecDeque<&'a Directive> = VecDeque::new();
        DirectiveIter::stack(&mut queue, start);
        assert(flatten(directives_view(start@)) + Seq::<DirectiveView>::empty() =~= flatten(
            directives_view(start@),
        ));
        DirectiveIter { cur: None, queue }
    }

    /// The next directive: the directives of a block come right behind
    /// the directive that has the block.
    pub fn next(&mut self) -> (r: Option<&'a Directive>)
        ensures
            match r {
                Some(d) => old(self).remaining().len() > 0 && d@ == old(self).remaining()[0]
                    && final(self).remaining() == old(self).remaining().skip(1),
                None => old(self).remaining().len() == 0 && final(self).remaining().len() == 0,
            },
    {
        match self.cur {
            Some(dir) => {
                match dir.item.children() {
                    Some(ch) => {
                        DirectiveIter::stack(&mut self.queue, ch);
                    },
                    None => {
                        assert(below(dir@) + pending(self.queue@) =~= pending(self.queue@));
                    },
                }
                self.cur = None;
            },
            None => {},
        }
        assert(self.remaining() == old(self).remaining());
        let ghost before = self.queue@;
        match self.queue.pop_back() {
            Some(x) => {
                self.cur = Some(x);
                proof {
                    assert(self.queue@ =~= before.drop_last());
                    assert(pending(before) =~= seq![x@] + (below(x@) + pending(self.queue@)));
                    assert(old(self).remaining().skip(1) =~= below(x@) + pending(self.queue@));
                }
                Some(x)
            },
            None => None,
        }
    }
}

impl Main {
    /// An iterator over all directives of the configuration, at any
    /// depth.
    pub fn all_directives(&self) -> (r: DirectiveIter<'_>)
        ensures
            r.remaining() == flatten(self@.directives),
    {
        DirectiveIter::depth_first(self.directives.as_slice())
    }
}

} // verus!
