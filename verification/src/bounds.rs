//! The generic constraint inferencer.
//!
//! A derived implementation can only work if the type of the cause has the
//! capability that the cause is used with. Where that type mentions a type
//! parameter of the record's owner, nothing is known of it, and the
//! implementation has to ask for the capability in its `where` clause.

use crate::ast::{Enum, Field};
use crate::attr::StackErrorKind;
use crate::least::{least, lemma_least_is, lemma_least_none};
use crate::resolve::{find_source, lemma_source_in_range, spec_find_source};
use crate::syntax::{
    predicate_views, GenericArgument, Generics, PathArguments, PathSegment, Type, WhereClause,
    WherePredicate, WherePredicateView,
};
use vstd::prelude::*;
use vstd::slice::slice_subrange;

verus! {

/// The names that the strings of `params` spell.
pub open spec fn names(params: Seq<String>) -> Set<Seq<char>> {
    Set::new(|name: Seq<char>| exists|i: int| 0 <= i < params.len() && params[i]@ == name)
}

/// Type argument `j` of segment `i` of a path, if there is one.
pub open spec fn arg_at(segments: Seq<PathSegment>, i: int, j: int) -> Option<Type> {
    if 0 <= i < segments.len() {
        match segments[i].arguments {
            PathArguments::AngleBracketed(args) => if 0 <= j < args@.len() {
                match args@[j] {
                    GenericArgument::Type(t) => Some(t),
                    GenericArgument::Other => None,
                }
            } else {
                None
            },
            _ => None,
        }
    } else {
        None
    }
}

/// Whether the type `ty` mentions one of `names` as a bare parameter.
///
/// Only paths are looked into. A path mentions a parameter where its first
/// segment is the parameter's name without arguments, where its qualifying
/// type mentions one, or where a type argument of any of its segments
/// mentions one.
pub open spec fn mentions(ty: Type, names: Set<Seq<char>>) -> bool
    decreases ty,
{
    match ty {
        Type::Path { qself, segments } => {
            ||| (qself matches Some(q) && mentions(*q, names))
            ||| (segments@.len() > 0 && segments@[0].arguments is Plain && names.contains(
                segments@[0].ident@,
            ))
            ||| exists|i: int, j: int|
                #![trigger arg_at(segments@, i, j)]
                arg_at(segments@, i, j) matches Some(t) && mentions(t, names)
        },
        _ => false,
    }
}

/// Whether a type argument before argument `j` of segment `i` mentions one of `names`.
pub open spec fn mentioned_before(
    segments: Seq<PathSegment>,
    names: Set<Seq<char>>,
    i: int,
    j: int,
) -> bool {
    exists|a: int, b: int|
        #![trigger arg_at(segments, a, b)]
        (a < i || (a == i && b < j)) && (arg_at(segments, a, b) matches Some(t) && mentions(
            t,
            names,
        ))
}

/// Whether `ident` is one of `params`.
pub fn contains(params: &[String], ident: &String) -> (yes: bool)
    ensures
        yes == names(params@).contains(ident@),
{
    let mut i: usize = 0;
    while i < params.len()
        invariant
            i <= params.len(),
            forall|k: int| 0 <= k < i ==> params@[k]@ != ident@,
        decreases params.len() - i,
    {
        if params[i] == *ident {
            return true;
        }
        i += 1;
    }
    false
}

/// Walks the type `ty` and sets `found` where the type mentions one of
/// `params` as a bare parameter; `found` is left as it is where it does not.
pub fn crawl(ty: &Type, params: &[String], found: &mut bool)
    ensures
        *final(found) == (*old(found) || mentions(*ty, names(params@))),
    decreases ty,
{
    let Type::Path { qself, segments } = ty else {
        return ;
    };
    let ghost before = *found;
    let ghost set = names(params@);
    if let Some(q) = qself {
        crawl(&**q, params, found);
    }
    if segments.len() > 0 {
        let first = &segments[0];
        let no_args = matches!(first.arguments, PathArguments::Plain);
        if no_args && contains(params, &first.ident) {
            *found = true;
        }
    }
    let ghost head = (qself matches Some(q) && mentions(**q, set)) || (segments@.len() > 0
        && segments@[0].arguments is Plain && set.contains(segments@[0].ident@));
    let mut i: usize = 0;
    while i < segments.len()
        invariant
            i <= segments.len(),
            set == names(params@),
            *ty == (Type::Path { qself: *qself, segments: *segments }),
            *found == (before || head || mentioned_before(segments@, set, i as int, 0)),
        decreases segments.len() - i,
    {
        if let PathArguments::AngleBracketed(arguments) = &segments[i].arguments {
            let mut j: usize = 0;
            while j < arguments.len()
                invariant
                    i < segments.len(),
                    j <= arguments.len(),
                    set == names(params@),
                    *ty == (Type::Path { qself: *qself, segments: *segments }),
                    segments@[i as int].arguments == PathArguments::AngleBracketed(*arguments),
                    *found == (before || head || mentioned_before(
                        segments@,
                        set,
                        i as int,
                        j as int,
                    )),
                decreases arguments.len() - j,
            {
                let ghost was = *found;
                if let GenericArgument::Type(inner) = &arguments[j] {
                    assert(arg_at(segments@, i as int, j as int) == Some(*inner));
                    proof {
                        assert(ty->segments == *segments);
                        assert(decreases_to!(*ty => ty->segments));
                        assert(decreases_to!(*segments => segments[i as int]));
                        assert(decreases_to!(segments[i as int] => segments[i as int].arguments));
                        assert(decreases_to!(segments[i as int].arguments => *arguments));
                        assert(decreases_to!(*arguments => arguments[j as int]));
                        assert(decreases_to!(arguments[j as int] => *inner));
                    }
                    crawl(inner, params, found);
                }
                proof {
                    let here = arg_at(segments@, i as int, j as int) matches Some(t) && mentions(
                        t,
                        set,
                    );
                    assert(mentioned_before(segments@, set, i as int, j as int + 1) == (
                    mentioned_before(segments@, set, i as int, j as int) || here)) by {
                        if mentioned_before(segments@, set, i as int, j as int + 1) {
                            let (a, b) = choose|a: int, b: int|
                                #![trigger arg_at(segments@, a, b)]
                                (a < i || (a == i && b < j + 1)) && (arg_at(
                                    segments@,
                                    a,
                                    b,
                                ) matches Some(t) && mentions(t, set));
                            if !(a == i && b == j) {
                                assert((a < i || (a == i && b < j)) && (arg_at(
                                    segments@,
                                    a,
                                    b,
                                ) matches Some(t) && mentions(t, set)));
                            }
                        }
                        if here {
                            assert((i < i || (i == i && j < j + 1)) && (arg_at(
                                segments@,
                                i as int,
                                j as int,
                            ) matches Some(t) && mentions(t, set)));
                        }
                    }
                }
                j += 1;
            }
            proof {
                lemma_row_done(segments@, set, i as int, arguments@.len() as int);
            }
        } else {
            proof {
                lemma_row_done(segments@, set, i as int, 0);
            }
        }
        i += 1;
    }
    proof {
        lemma_all_rows(segments@, set);
    }
}

/// Past the last argument of segment `i`, the search stands at the start of segment `i + 1`.
proof fn lemma_row_done(segments: Seq<PathSegment>, set: Set<Seq<char>>, i: int, j: int)
    requires
        0 <= i < segments.len(),
        forall|b: int| b >= j ==> arg_at(segments, i, b) is None,
    ensures
        mentioned_before(segments, set, i + 1, 0) == mentioned_before(segments, set, i, j),
{
    if mentioned_before(segments, set, i + 1, 0) {
        let (a, b) = choose|a: int, b: int|
            #![trigger arg_at(segments, a, b)]
            (a < i + 1 || (a == i + 1 && b < 0)) && (arg_at(segments, a, b) matches Some(t)
                && mentions(t, set));
        assert((a < i || (a == i && b < j)) && (arg_at(segments, a, b) matches Some(t) && mentions(
            t,
            set,
        )));
    }
    if mentioned_before(segments, set, i, j) {
        let (a, b) = choose|a: int, b: int|
            #![trigger arg_at(segments, a, b)]
            (a < i || (a == i && b < j)) && (arg_at(segments, a, b) matches Some(t) && mentions(
                t,
                set,
            ));
        assert((a < i + 1 || (a == i + 1 && b < 0)) && (arg_at(segments, a, b) matches Some(t)
            && mentions(t, set)));
    }
}

/// Past the last segment, every type argument has been looked at.
proof fn lemma_all_rows(segments: Seq<PathSegment>, set: Set<Seq<char>>)
    ensures
        mentioned_before(segments, set, segments.len() as int, 0) == (exists|i: int, j: int|
            #![trigger arg_at(segments, i, j)]
            arg_at(segments, i, j) matches Some(t) && mentions(t, set)),
{
    let n = segments.len() as int;
    if mentioned_before(segments, set, n, 0) {
        let (a, b) = choose|a: int, b: int|
            #![trigger arg_at(segments, a, b)]
            (a < n || (a == n && b < 0)) && (arg_at(segments, a, b) matches Some(t) && mentions(
                t,
                set,
            ));
        assert(arg_at(segments, a, b) matches Some(t) && mentions(t, set));
    }
    if exists|i: int, j: int|
        #![trigger arg_at(segments, i, j)]
        arg_at(segments, i, j) matches Some(t) && mentions(t, set) {
        let (a, b) = choose|i: int, j: int|
            #![trigger arg_at(segments, i, j)]
            arg_at(segments, i, j) matches Some(t) && mentions(t, set);
        assert((a < n || (a == n && b < 0)) && (arg_at(segments, a, b) matches Some(t) && mentions(
            t,
            set,
        )));
    }
}

/// What a type parameter has to support.
#[derive(Debug, Clone, Copy, PartialEq, Eq, Structural)]
pub struct Capability {
    /// The parameter has to be an error: displayable, with a cause of its own.
    pub base: bool,
    /// The parameter has to report a location and a next cause.
    pub chain: bool,
}

/// The mathematical value of a [`BoundsTracker`].
pub struct TrackerView {
    /// The type parameters in scope, each once, in the order of their declaration.
    pub params: Seq<Seq<char>>,
    /// What each parameter has to support; as long as `params`.
    pub needs: Seq<Capability>,
}

/// The texts of `list`, in order.
pub open spec fn texts(list: Seq<String>) -> Seq<Seq<char>> {
    list.map_values(|s: String| s@)
}

/// The first `n` of `list` without repetitions: each text where it first occurs.
pub open spec fn distinct(list: Seq<Seq<char>>, n: int) -> Seq<Seq<char>>
    decreases n,
{
    if n <= 0 {
        Seq::empty()
    } else if distinct(list, n - 1).contains(list[n - 1]) {
        distinct(list, n - 1)
    } else {
        distinct(list, n - 1).push(list[n - 1])
    }
}

/// The bounds that `needs` asks of the parameter `param`: that it is an
/// error where it has to be one, then that it reports a chain where it has to.
pub open spec fn bounds_on(param: Seq<char>, needs: Capability) -> Seq<WherePredicateView> {
    let base = if needs.base {
        seq![WherePredicateView::Bound { param, kind: StackErrorKind::Std }]
    } else {
        Seq::empty()
    };
    let chain = if needs.chain {
        seq![WherePredicateView::Bound { param, kind: StackErrorKind::Stacked }]
    } else {
        Seq::empty()
    };
    base + chain
}

/// The bounds on the first `n` parameters, in the order of the parameters.
pub open spec fn predicates(params: Seq<Seq<char>>, needs: Seq<Capability>, n: int) -> Seq<
    WherePredicateView,
>
    decreases n,
{
    if n <= 0 {
        Seq::empty()
    } else {
        predicates(params, needs, n - 1) + bounds_on(params[n - 1], needs[n - 1])
    }
}

impl TrackerView {
    /// Nothing collected yet, for the type parameters `params`.
    pub open spec fn new(params: Seq<Seq<char>>) -> TrackerView {
        let once = distinct(params, params.len() as int);
        TrackerView {
            params: once,
            needs: Seq::new(once.len(), |k: int| Capability { base: false, chain: false }),
        }
    }

    /// No parameter occurs twice, every parameter has its needs, and a
    /// parameter that has to report a chain has to be an error.
    pub open spec fn wf(self) -> bool {
        &&& self.needs.len() == self.params.len()
        &&& forall|k: int|
            0 <= k < self.needs.len() ==> (#[trigger] self.needs[k]).chain ==> self.needs[k].base
        &&& forall|i: int, j: int|
            0 <= i < j < self.params.len() ==> self.params[i] != self.params[j]
    }

    /// The state after a cause of the type `ty` was collected with the kind
    /// `kind`: each parameter that the type mentions has to be an error, and
    /// has to report a chain unless the cause ends the chain.
    pub open spec fn record(self, ty: Type, kind: StackErrorKind) -> TrackerView {
        TrackerView {
            params: self.params,
            needs: Seq::new(
                self.needs.len(),
                |k: int|
                    if mentions(ty, set![self.params[k]]) {
                        Capability {
                            base: true,
                            chain: self.needs[k].chain || kind == StackErrorKind::Stacked,
                        }
                    } else {
                        self.needs[k]
                    },
            ),
        }
    }

    /// The state after the record with the fields `fields` was collected.
    /// Only a record whose cause can be resolved changes anything.
    pub open spec fn collect(self, fields: Seq<Field>) -> TrackerView {
        match spec_find_source(fields) {
            Ok(Some(i)) => self.record(
                *fields[i as int].ty,
                fields[i as int].spec_stack_error_kind(),
            ),
            _ => self,
        }
    }

    /// The state after the first `n` of the records `records` were collected, in order.
    pub open spec fn collect_all(self, records: Seq<Seq<Field>>, n: int) -> TrackerView
        decreases n,
    {
        if n <= 0 {
            self
        } else {
            self.collect_all(records, n - 1).collect(records[n - 1])
        }
    }

    /// The `where` clause: what the author wrote, then for each parameter in
    /// order the bounds that it needs.
    pub open spec fn where_clause(self, written: Seq<WherePredicateView>) -> Seq<
        WherePredicateView,
    > {
        written + predicates(self.params, self.needs, self.params.len() as int)
    }
}

/// The fields of each variant of an enum, in order.
pub open spec fn records_of(variants: Seq<crate::ast::Variant>) -> Seq<Seq<Field>> {
    Seq::new(variants.len(), |i: int| variants[i].fields@)
}

/// Collects which capabilities an implementation has to ask of the type
/// parameters.
pub struct BoundsTracker {
    params: Vec<String>,
    needs: Vec<Capability>,
}

impl View for BoundsTracker {
    type V = TrackerView;

    closed spec fn view(&self) -> TrackerView {
        TrackerView { params: texts(self.params@), needs: self.needs@ }
    }
}

/// A list of one text spells just that text.
proof fn lemma_names_of_one(params: Seq<String>, k: int)
    requires
        0 <= k < params.len(),
    ensures
        names(params.subrange(k, k + 1)) == set![params[k]@],
{
    let one = params.subrange(k, k + 1);
    assert(one[0] == params[k]);
    assert(names(one) =~= set![params[k]@]);
}

/// The names that a list spells are the set of its texts.
proof fn lemma_names_are_texts(params: Seq<String>)
    ensures
        names(params) == texts(params).to_set(),
{
    let t = texts(params);
    assert forall|name: Seq<char>| names(params).contains(name) == t.to_set().contains(name) by {
        if names(params).contains(name) {
            let i = choose|i: int| 0 <= i < params.len() && params[i]@ == name;
            assert(t[i] == name);
        }
        if t.to_set().contains(name) {
            let i = choose|i: int| 0 <= i < t.len() && t[i] == name;
            assert(params[i]@ == name);
        }
    }
    assert(names(params) =~= t.to_set());
}

/// What [`distinct`] keeps of the first `n` texts: each of them, once.
proof fn lemma_distinct(list: Seq<Seq<char>>, n: int)
    requires
        0 <= n <= list.len(),
    ensures
        forall|i: int, j: int|
            0 <= i < j < distinct(list, n).len() ==> distinct(list, n)[i] != distinct(list, n)[j],
        forall|k: int| 0 <= k < n ==> distinct(list, n).contains(#[trigger] list[k]),
        forall|i: int|
            0 <= i < distinct(list, n).len() ==> exists|k: int|
                0 <= k < n && list[k] == #[trigger] distinct(list, n)[i],
    decreases n,
{
    if n > 0 {
        lemma_distinct(list, n - 1);
        let prev = distinct(list, n - 1);
        let next = distinct(list, n);
        if prev.contains(list[n - 1]) {
        } else {
            assert(next[next.len() - 1] == list[n - 1]);
            assert forall|k: int| 0 <= k < n implies next.contains(#[trigger] list[k]) by {
                if k < n - 1 {
                    let at = choose|at: int| 0 <= at < prev.len() && prev[at] == list[k];
                    assert(next[at] == list[k]);
                }
            }
            assert forall|i: int| 0 <= i < next.len() implies exists|k: int|
                0 <= k < n && list[k] == #[trigger] next[i] by {
                if i < prev.len() {
                    let k = choose|k: int| 0 <= k < n - 1 && list[k] == prev[i];
                    assert(list[k] == next[i]);
                } else {
                    assert(list[n - 1] == next[i]);
                }
            }
        }
    }
}

/// A type that mentions one of a few names mentions one of more names.
pub proof fn lemma_mentions_more(ty: Type, few: Set<Seq<char>>, more: Set<Seq<char>>)
    requires
        few.subset_of(more),
        mentions(ty, few),
    ensures
        mentions(ty, more),
    decreases ty,
{
    match ty {
        Type::Path { qself, segments } => {
            if qself matches Some(q) && mentions(*q, few) {
                lemma_mentions_more(*qself->Some_0, few, more);
            } else if segments@.len() > 0 && segments@[0].arguments is Plain && few.contains(
                segments@[0].ident@,
            ) {
            } else {
                let (i, j) = choose|i: int, j: int|
                    #![trigger arg_at(segments@, i, j)]
                    arg_at(segments@, i, j) matches Some(t) && mentions(t, few);
                let inner = arg_at(segments@, i, j)->Some_0;
                let arguments = segments@[i].arguments->AngleBracketed_0;
                assert(decreases_to!(ty => segments));
                assert(decreases_to!(segments => segments[i]));
                assert(decreases_to!(segments[i] => segments[i].arguments));
                assert(decreases_to!(segments[i].arguments => arguments));
                assert(decreases_to!(arguments => arguments[j]));
                assert(decreases_to!(arguments[j] => inner));
                lemma_mentions_more(inner, few, more);
                assert(arg_at(segments@, i, j) matches Some(t) && mentions(t, more));
            }
        },
        _ => {},
    }
}

/// Only the parameters that the cause mentions get a constraint.
///
/// Collecting a record leaves the parameters in scope as they are. What a
/// parameter has to support changes only where the cause of the record
/// resolves and its type mentions the parameter: then the parameter has to
/// be an error, and has to report a chain as well unless the cause ends
/// the chain. A parameter that has to report a chain always has to be an
/// error, and the `where` clause bounds the parameter itself.
pub proof fn law_constraints_follow_mentions(view: TrackerView, fields: Seq<Field>, k: int)
    requires
        view.wf(),
        0 <= k < view.params.len(),
    ensures
        view.collect(fields).wf(),
        view.collect(fields).params == view.params,
        view.collect(fields).needs[k] == match spec_find_source(fields) {
            Ok(Some(i)) => if mentions(*fields[i as int].ty, set![view.params[k]]) {
                Capability {
                    base: true,
                    chain: view.needs[k].chain || fields[i as int].spec_stack_error_kind()
                        == StackErrorKind::Stacked,
                }
            } else {
                view.needs[k]
            },
            _ => view.needs[k],
        },
        view.collect(fields).needs[k].chain ==> view.collect(fields).needs[k].base,
        bounds_on(view.params[k], view.collect(fields).needs[k]) == if !view.collect(
            fields,
        ).needs[k].base {
            Seq::<WherePredicateView>::empty()
        } else if view.collect(fields).needs[k].chain {
            seq![
                WherePredicateView::Bound { param: view.params[k], kind: StackErrorKind::Std },
                WherePredicateView::Bound { param: view.params[k], kind: StackErrorKind::Stacked },
            ]
        } else {
            seq![WherePredicateView::Bound { param: view.params[k], kind: StackErrorKind::Std }]
        },
{
    let needs = view.collect(fields).needs[k];
    assert(needs.chain ==> needs.base);
    assert(bounds_on(view.params[k], needs) =~= if !needs.base {
        Seq::<WherePredicateView>::empty()
    } else if needs.chain {
        seq![
            WherePredicateView::Bound { param: view.params[k], kind: StackErrorKind::Std },
            WherePredicateView::Bound { param: view.params[k], kind: StackErrorKind::Stacked },
        ]
    } else {
        seq![WherePredicateView::Bound { param: view.params[k], kind: StackErrorKind::Std }]
    });
}

/// Whether the predicate `p` is a bound that the needs of some parameter ask for.
pub open spec fn is_needed(
    params: Seq<Seq<char>>,
    needs: Seq<Capability>,
    p: WherePredicateView,
) -> bool {
    exists|k: int|
        0 <= k < params.len() && #[trigger] bounds_on(params[k], needs[k]).contains(p)
}

/// What is in the front or in the back of a list is in the list, and nothing else is.
proof fn lemma_contains_either(
    front: Seq<WherePredicateView>,
    back: Seq<WherePredicateView>,
    p: WherePredicateView,
)
    ensures
        (front + back).contains(p) <==> front.contains(p) || back.contains(p),
{
    let all = front + back;
    if all.contains(p) {
        let i = choose|i: int| 0 <= i < all.len() && all[i] == p;
        if i < front.len() {
            assert(front[i] == p);
        } else {
            assert(back[i - front.len()] == p);
        }
    }
    if front.contains(p) {
        let i = choose|i: int| 0 <= i < front.len() && front[i] == p;
        assert(all[i] == p);
    }
    if back.contains(p) {
        let i = choose|i: int| 0 <= i < back.len() && back[i] == p;
        assert(all[front.len() + i] == p);
    }
}

/// The bounds on the first `n` parameters are the bounds that the needs of
/// those parameters ask for.
proof fn lemma_predicates(
    params: Seq<Seq<char>>,
    needs: Seq<Capability>,
    n: int,
    p: WherePredicateView,
)
    requires
        0 <= n <= params.len(),
    ensures
        predicates(params, needs, n).contains(p) <==> exists|k: int|
            0 <= k < n && #[trigger] bounds_on(params[k], needs[k]).contains(p),
    decreases n,
{
    if n > 0 {
        lemma_predicates(params, needs, n - 1, p);
        lemma_contains_either(
            predicates(params, needs, n - 1),
            bounds_on(params[n - 1], needs[n - 1]),
            p,
        );
        if exists|k: int| 0 <= k < n && #[trigger] bounds_on(params[k], needs[k]).contains(p) {
            let k = choose|k: int|
                0 <= k < n && #[trigger] bounds_on(params[k], needs[k]).contains(p);
            if k < n - 1 {
                assert(bounds_on(params[k], needs[k]).contains(p));
            }
        }
        if predicates(params, needs, n).contains(p) {
            if predicates(params, needs, n - 1).contains(p) {
                let k = choose|k: int|
                    0 <= k < n - 1 && #[trigger] bounds_on(params[k], needs[k]).contains(p);
                assert(bounds_on(params[k], needs[k]).contains(p));
            } else {
                assert(bounds_on(params[n - 1], needs[n - 1]).contains(p));
            }
        }
    }
}

/// The `where` clause bounds the parameters themselves.
///
/// It holds what the author wrote and, beyond that, exactly the bounds that
/// the needs of the parameters ask for: for a parameter that has to be an
/// error the bound that it is one, and for a parameter that has to report a
/// chain the bound that it does. So a stacked cause whose type mentions a
/// parameter, be it inside another type, puts both bounds on that parameter.
pub proof fn law_where_clause_bounds_parameters(
    view: TrackerView,
    written: Seq<WherePredicateView>,
    k: int,
    p: WherePredicateView,
)
    requires
        view.wf(),
        0 <= k < view.params.len(),
    ensures
        view.where_clause(written).contains(p) <==> written.contains(p) || is_needed(
            view.params,
            view.needs,
            p,
        ),
        view.needs[k].base ==> view.where_clause(written).contains(
            WherePredicateView::Bound { param: view.params[k], kind: StackErrorKind::Std },
        ),
        view.needs[k].chain ==> view.where_clause(written).contains(
            WherePredicateView::Bound { param: view.params[k], kind: StackErrorKind::Stacked },
        ),
        bounds_on(view.params[k], view.needs[k]).contains(p) ==> p is Bound && p->param
            == view.params[k],
{
    let n = view.params.len() as int;
    let rows = predicates(view.params, view.needs, n);
    lemma_contains_either(written, rows, p);
    lemma_predicates(view.params, view.needs, n, p);
    let own = bounds_on(view.params[k], view.needs[k]);
    let base = WherePredicateView::Bound { param: view.params[k], kind: StackErrorKind::Std };
    let chain = WherePredicateView::Bound { param: view.params[k], kind: StackErrorKind::Stacked };
    if view.needs[k].base {
        assert(own[0] == base);
        assert(bounds_on(view.params[k], view.needs[k]).contains(base));
        lemma_predicates(view.params, view.needs, n, base);
        lemma_contains_either(written, rows, base);
    }
    if view.needs[k].chain {
        assert(own[own.len() - 1] == chain);
        assert(bounds_on(view.params[k], view.needs[k]).contains(chain));
        lemma_predicates(view.params, view.needs, n, chain);
        lemma_contains_either(written, rows, chain);
    }
    if own.contains(p) {
        let i = choose|i: int| 0 <= i < own.len() && own[i] == p;
        assert(own[i] == p);
    }
}

/// A cause puts its bounds on the parameters that its type mentions.
///
/// After a record is collected whose cause resolves and mentions a
/// parameter, the `where` clause holds the bound that this parameter is an
/// error, and, unless the cause ends the chain, the bound that it reports
/// a chain.
pub proof fn law_cause_bounds_its_parameters(
    view: TrackerView,
    fields: Seq<Field>,
    written: Seq<WherePredicateView>,
    cause: usize,
    k: int,
)
    requires
        view.wf(),
        0 <= k < view.params.len(),
        spec_find_source(fields) == Ok::<_, crate::diagnostic::DiagnosticView>(Some(cause)),
        mentions(*fields[cause as int].ty, set![view.params[k]]),
    ensures
        view.collect(fields).where_clause(written).contains(
            WherePredicateView::Bound { param: view.params[k], kind: StackErrorKind::Std },
        ),
        fields[cause as int].spec_stack_error_kind() == StackErrorKind::Stacked ==> view.collect(
            fields,
        ).where_clause(written).contains(
            WherePredicateView::Bound { param: view.params[k], kind: StackErrorKind::Stacked },
        ),
{
    let after = view.collect(fields);
    law_constraints_follow_mentions(view, fields, k);
    law_where_clause_bounds_parameters(
        after,
        written,
        k,
        WherePredicateView::Bound { param: view.params[k], kind: StackErrorKind::Std },
    );
}

/// Where a type mentions none of a set of names, it mentions no one of them.
proof fn lemma_mentions_none(ty: Type, params: Seq<String>, k: int)
    requires
        0 <= k < params.len(),
        !mentions(ty, names(params)),
    ensures
        !mentions(ty, set![params[k]@]),
{
    let one = set![params[k]@];
    assert(names(params).contains(params[k]@));
    assert(one.subset_of(names(params)));
    if mentions(ty, one) {
        lemma_mentions_more(ty, one, names(params));
    }
}

/// Collects the cause of the record with the fields `fields` into the needs
/// of the parameters `params`.
fn collect_into(params: &Vec<String>, needs: &mut Vec<Capability>, fields: &[Field])
    requires
        (TrackerView { params: texts(params@), needs: old(needs)@ }).wf(),
    ensures
        (TrackerView { params: texts(params@), needs: final(needs)@ }) == (TrackerView {
            params: texts(params@),
            needs: old(needs)@,
        }).collect(fields@),
        (TrackerView { params: texts(params@), needs: final(needs)@ }).wf(),
{
    let n = fields.len();
    let ghost before = TrackerView { params: texts(params@), needs: needs@ };
    let Ok(Some(i)) = find_source(fields) else {
        return ;
    };
    proof {
        lemma_source_in_range(fields@);
    }
    let f = &fields[i];
    let kind = f.stack_error_kind();
    let ghost after = before.record(*f.ty, kind);
    let mut found = false;
    crawl(f.ty, params.as_slice(), &mut found);
    if !found {
        proof {
            assert forall|k: int| 0 <= k < params@.len() implies !mentions(
                *f.ty,
                set![#[trigger] before.params[k]],
            ) by {
                lemma_mentions_none(*f.ty, params@, k);
            }
            assert(needs@ =~= after.needs);
        }
        return ;
    }
    let mut k: usize = 0;
    while k < params.len()
        invariant
            k <= params.len(),
            texts(params@) == before.params,
            needs@.len() == before.needs.len(),
            before.needs.len() == before.params.len(),
            after == before.record(*f.ty, kind),
            forall|j: int| 0 <= j < k ==> needs@[j] == after.needs[j],
            forall|j: int| k <= j < needs@.len() ==> needs@[j] == before.needs[j],
        decreases params.len() - k,
    {
        let mut hit = false;
        crawl(f.ty, slice_subrange(params.as_slice(), k, k + 1), &mut hit);
        proof {
            lemma_names_of_one(params@, k as int);
        }
        if hit {
            let chain = needs[k].chain || matches!(kind, StackErrorKind::Stacked);
            needs.set(k, Capability { base: true, chain });
        }
        k += 1;
    }
    assert(needs@ =~= after.needs);
}

impl BoundsTracker {
    #[verifier::type_invariant]
    closed spec fn in_order(&self) -> bool {
        self@.wf()
    }

    /// A tracker for a type with the generic parameters `generics`, with
    /// nothing collected. A parameter name that is declared twice counts once.
    pub fn new(generics: &Generics) -> (tracker: BoundsTracker)
        ensures
            tracker@ == TrackerView::new(texts(generics.type_params@)),
            tracker@.wf(),
    {
        let declared = &generics.type_params;
        let ghost list = texts(declared@);
        let mut params: Vec<String> = Vec::new();
        let mut needs: Vec<Capability> = Vec::new();
        let mut i: usize = 0;
        while i < declared.len()
            invariant
                i <= declared.len(),
                list == texts(declared@),
                texts(params@) == distinct(list, i as int),
                needs@ == Seq::new(
                    params@.len(),
                    |k: int| Capability { base: false, chain: false },
                ),
            decreases declared.len() - i,
        {
            proof {
                lemma_names_are_texts(params@);
            }
            if !contains(params.as_slice(), &declared[i]) {
                let ghost before = params@;
                params.push(declared[i].clone());
                needs.push(Capability { base: false, chain: false });
                assert(texts(params@) =~= texts(before).push(list[i as int]));
                assert(needs@ =~= Seq::new(
                    params@.len(),
                    |k: int| Capability { base: false, chain: false },
                ));
            }
            i += 1;
        }
        proof {
            lemma_distinct(list, list.len() as int);
        }
        BoundsTracker { params, needs }
    }

    /// Collects the cause of the record with the fields `fields`.
    ///
    /// A record whose cause cannot be resolved, that has no cause, or whose
    /// cause type mentions no parameter in scope leaves the tracker as it is.
    pub fn collect(&mut self, fields: &[Field])
        ensures
            final(self)@ == old(self)@.collect(fields@),
            final(self)@.wf(),
    {
        proof {
            use_type_invariant(&*self);
        }
        let mut taken = BoundsTracker { params: Vec::new(), needs: Vec::new() };
        core::mem::swap(self, &mut taken);
        let BoundsTracker { params, mut needs } = taken;
        collect_into(&params, &mut needs, fields);
        *self = BoundsTracker { params, needs };
    }

    /// Collects the cause of every variant of `enum_st`, in order.
    pub fn collect_enum(&mut self, enum_st: &Enum<'_>)
        ensures
            final(self)@ == old(self)@.collect_all(
                records_of(enum_st.variants@),
                enum_st.variants@.len() as int,
            ),
            final(self)@.wf(),
    {
        proof {
            use_type_invariant(&*self);
        }
        let ghost records = records_of(enum_st.variants@);
        let mut i: usize = 0;
        while i < enum_st.variants.len()
            invariant
                i <= enum_st.variants.len(),
                records == records_of(enum_st.variants@),
                self@.wf(),
                self@ == old(self)@.collect_all(records, i as int),
            decreases enum_st.variants.len() - i,
        {
            self.collect(enum_st.variants[i].fields.as_slice());
            i += 1;
        }
    }

    /// What the type parameter `param` has to support, by what was collected
    /// so far; nothing where `param` is not a parameter in scope.
    pub fn requirement(&self, param: &String) -> (needs: Capability)
        ensures
            needs == match least(
                0,
                self@.params.len() as int,
                |k: int| self@.params[k] == param@,
            ) {
                Some(k) => self@.needs[k],
                None => Capability { base: false, chain: false },
            },
    {
        proof {
            use_type_invariant(self);
        }
        let ghost p = |k: int| self@.params[k] == param@;
        let mut k: usize = 0;
        while k < self.params.len()
            invariant
                k <= self.params.len(),
                self.needs@.len() == self.params@.len(),
                p == (|k: int| self@.params[k] == param@),
                forall|j: int| 0 <= j < k ==> !#[trigger] p(j),
            decreases self.params.len() - k,
        {
            if self.params[k] == *param {
                proof {
                    assert(p(k as int));
                    lemma_least_is(0, self@.params.len() as int, p, k as int);
                }
                return self.needs[k];
            }
            k += 1;
        }
        proof {
            lemma_least_none(0, self@.params.len() as int, p);
        }
        Capability { base: false, chain: false }
    }

    /// The `where` clause of the implementation: the predicates that the
    /// author wrote, if any, followed for each type parameter, in the order
    /// of declaration, by the bounds on that parameter: that it is an error
    /// where it has to be one, and that it reports a chain where it has to.
    pub fn make_where_clause(&self, where_clause: Option<&WhereClause>) -> (clause: WhereClause)
        ensures
            clause.spec_predicates() == self@.where_clause(
                match where_clause {
                    Some(written) => written.spec_predicates(),
                    None => Seq::empty(),
                },
            ),
    {
        proof {
            use_type_invariant(self);
        }
        let mut list: Vec<WherePredicate> = Vec::new();
        let ghost written = match where_clause {
            Some(w) => w.spec_predicates(),
            None => Seq::empty(),
        };
        if let Some(w) = where_clause {
            let mut i: usize = 0;
            while i < w.predicates.len()
                invariant
                    i <= w.predicates.len(),
                    predicate_views(list@) == w.spec_predicates().subrange(0, i as int),
                decreases w.predicates.len() - i,
            {
                let ghost before = predicate_views(list@);
                push_predicate(&mut list, w.predicates[i].duplicate());
                assert(before.push(w.spec_predicates()[i as int])
                    =~= w.spec_predicates().subrange(0, i as int + 1));
                i += 1;
            }
            assert(w.spec_predicates().subrange(0, i as int) =~= w.spec_predicates());
        } else {
            assert(predicate_views(list@) =~= written);
        }
        let ghost params = self@.params;
        let ghost needs = self@.needs;
        let mut k: usize = 0;
        while k < self.params.len()
            invariant
                k <= self.params.len(),
                params == texts(self.params@),
                needs == self.needs@,
                needs.len() == params.len(),
                predicate_views(list@) == written + predicates(params, needs, k as int),
            decreases self.params.len() - k,
        {
            let ghost start = predicate_views(list@);
            if self.needs[k].base {
                push_predicate(
                    &mut list,
                    WherePredicate::Bound { param: self.params[k].clone(), kind: StackErrorKind::Std },
                );
            }
            if self.needs[k].chain {
                push_predicate(
                    &mut list,
                    WherePredicate::Bound {
                        param: self.params[k].clone(),
                        kind: StackErrorKind::Stacked,
                    },
                );
            }
            assert(predicate_views(list@) =~= start + bounds_on(params[k as int], needs[k as int]));
            assert(written + predicates(params, needs, k as int) + bounds_on(
                params[k as int],
                needs[k as int],
            ) =~= written + predicates(params, needs, k as int + 1));
            k += 1;
        }
        WhereClause { predicates: list }
    }
}

/// Puts `predicate` at the end of `list`.
fn push_predicate(list: &mut Vec<WherePredicate>, predicate: WherePredicate)
    ensures
        predicate_views(final(list)@) == predicate_views(old(list)@).push(predicate@),
{
    let ghost before = list@;
    list.push(predicate);
    assert(predicate_views(list@).len() == list@.len());
    assert(predicate_views(before).len() == before.len());
    assert forall|k: int| 0 <= k < list@.len() implies predicate_views(list@)[k]
        == predicate_views(before).push(predicate@)[k] by {
        if k < before.len() {
            assert(predicate_views(before)[k] == before[k]@);
        }
    }
    assert(predicate_views(list@) =~= predicate_views(before).push(predicate@));
}

} // verus!
