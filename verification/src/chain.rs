//! The chain model: errors as records, links that borrow them, and the walk
//! from the outermost error down to the root cause.
//!
//! An error either reports a location and a next cause of its own (it is
//! *stacked*), or it is a plain error that only has a text and a cause. Once
//! the walk has reached a plain error it stays among plain errors.

use crate::least::{least, lemma_least_is, lemma_least_none};
use crate::location::{Location, LocationView};
use crate::private::AsDynStackError;
use vstd::prelude::*;
use vstd::string::StringExecFns;

verus! {

/// A plain error: a text, and the error that caused it, if any.
#[derive(Debug)]
pub struct StdError {
    pub text: String,
    pub source: Option<Box<StdError>>,
}

/// What a stacked error was caused by.
#[derive(Debug)]
pub enum Cause {
    /// An error that continues the structured chain.
    Stacked(Box<StackedError>),
    /// A plain error: the structured chain ends with it.
    Std(Box<StdError>),
}

/// An error that reports where it was made and what caused it.
///
/// It is a plain error too: `error` holds its text, and the cause that it
/// shows to those who only know plain errors. The chain follows `cause`.
#[derive(Debug)]
pub struct StackedError {
    pub error: StdError,
    pub location: Location,
    pub cause: Option<Cause>,
}

/// A borrowed chain-reporting error, whatever its type: either a stacked
/// error, or a plain error together with the location it was given.
#[derive(Debug, Clone, Copy)]
pub enum DynStackError<'a> {
    Record(&'a StackedError),
    Located { location: &'a Location, inner: &'a StdError },
}

/// One layer in a stack of chained errors.
#[derive(Debug, Clone, Copy)]
pub enum Chain<'a> {
    /// A stacked error.
    Stacked(DynStackError<'a>),
    /// A plain error.
    Std(&'a StdError),
}

/// What one link shows: whether it is stacked, its text, and its location if
/// it is stacked.
pub struct Link {
    pub stacked: bool,
    pub text: Seq<char>,
    pub location: Option<LocationView>,
}

impl StdError {
    /// The links of the chain that starts at this error: the error itself,
    /// then its cause, and so on. All of them are plain.
    pub open spec fn links(self) -> Seq<Link>
        decreases self,
    {
        seq![Link { stacked: false, text: self.text@, location: None }] + match self.source {
            Some(source) => source.links(),
            None => Seq::empty(),
        }
    }

    /// A plain error with the text `text` and no cause.
    pub fn new(text: &str) -> (error: StdError)
        ensures
            error.text@ == text@,
            error.source is None,
    {
        StdError { text: String::from_str(text), source: None }
    }

    /// A plain error with the text `text` that was caused by `source`.
    pub fn with_source(text: &str, source: StdError) -> (error: StdError)
        ensures
            error.text@ == text@,
            error.source == Some(Box::new(source)),
    {
        StdError { text: String::from_str(text), source: Some(Box::new(source)) }
    }

    /// The text that the error displays.
    pub fn text(&self) -> (text: &str)
        ensures
            text@ == self.text@,
    {
        self.text.as_str()
    }

    /// The error that caused this one.
    pub fn source(&self) -> (source: Option<&StdError>)
        ensures
            source == match self.source {
                Some(boxed) => Some(&*boxed),
                None => None,
            },
    {
        match &self.source {
            Some(boxed) => Some(&**boxed),
            None => None,
        }
    }
}

impl StackedError {
    /// The links of the chain that starts at this error.
    pub open spec fn links(self) -> Seq<Link>
        decreases self,
    {
        seq![Link { stacked: true, text: self.error.text@, location: Some(self.location@) }]
            + match self.cause {
            Some(Cause::Stacked(cause)) => cause.links(),
            Some(Cause::Std(cause)) => cause.links(),
            None => Seq::empty(),
        }
    }

    /// A stacked error with the text `text`, made at `location`, with no cause.
    pub fn new(text: &str, location: Location) -> (error: StackedError)
        ensures
            error.error.text@ == text@,
            error.error.source is None,
            error.location == location,
            error.cause is None,
    {
        StackedError { error: StdError::new(text), location, cause: None }
    }

    /// The plain error `error`, made at `location`, with no cause in the chain.
    pub fn with_error(error: StdError, location: Location) -> (stacked: StackedError)
        ensures
            stacked.error == error,
            stacked.location == location,
            stacked.cause is None,
    {
        StackedError { error, location, cause: None }
    }

    /// The same error, caused by the stacked error `cause`.
    pub fn stacked_on(self, cause: StackedError) -> (error: StackedError)
        ensures
            error.error == self.error,
            error.location == self.location,
            error.cause == Some(Cause::Stacked(Box::new(cause))),
    {
        StackedError {
            error: self.error,
            location: self.location,
            cause: Some(Cause::Stacked(Box::new(cause))),
        }
    }

    /// The same error, caused by the plain error `cause`.
    pub fn std_on(self, cause: StdError) -> (error: StackedError)
        ensures
            error.error == self.error,
            error.location == self.location,
            error.cause == Some(Cause::Std(Box::new(cause))),
    {
        StackedError {
            error: self.error,
            location: self.location,
            cause: Some(Cause::Std(Box::new(cause))),
        }
    }
}

impl<'a> DynStackError<'a> {
    /// The error as a plain error.
    pub open spec fn spec_inner(self) -> &'a StdError {
        match self {
            DynStackError::Record(record) => &record.error,
            DynStackError::Located { location, inner } => inner,
        }
    }

    /// The text that the error displays.
    pub open spec fn spec_text(self) -> Seq<char> {
        self.spec_inner().text@
    }

    /// The location that the error reports.
    pub open spec fn spec_location(self) -> Location {
        match self {
            DynStackError::Record(record) => record.location,
            DynStackError::Located { location, inner } => *location,
        }
    }

    /// The link below this error.
    pub open spec fn spec_next(self) -> Option<Chain<'a>> {
        match self {
            DynStackError::Record(record) => match record.cause {
                Some(Cause::Stacked(cause)) => Some(Chain::Stacked(DynStackError::Record(&*cause))),
                Some(Cause::Std(cause)) => Some(Chain::Std(&*cause)),
                None => None,
            },
            DynStackError::Located { location, inner } => match inner.source {
                Some(source) => Some(Chain::Std(&*source)),
                None => None,
            },
        }
    }

    /// The links of the chain that starts at this error.
    pub open spec fn links(self) -> Seq<Link> {
        match self {
            DynStackError::Record(record) => record.links(),
            DynStackError::Located { location, inner } => seq![
                Link { stacked: true, text: inner.text@, location: Some(location@) },
            ] + match inner.source {
                Some(source) => source.links(),
                None => Seq::empty(),
            },
        }
    }

    /// The error as a plain error: its text and the cause that it shows
    /// to those who only know plain errors.
    pub fn inner(&self) -> (inner: &'a StdError)
        ensures
            inner == self.spec_inner(),
    {
        match self {
            DynStackError::Record(record) => &record.error,
            DynStackError::Located { location: _, inner } => inner,
        }
    }

    /// The text that the error displays.
    pub fn text(&self) -> (text: &'a str)
        ensures
            text@ == self.spec_text(),
    {
        self.inner().text.as_str()
    }

    /// The location that the error reports.
    pub fn location(&self) -> (location: &'a Location)
        ensures
            *location == self.spec_location(),
    {
        match self {
            DynStackError::Record(record) => &record.location,
            DynStackError::Located { location, inner: _ } => location,
        }
    }

    /// The link below this error: its cause as the error itself says, or for
    /// a located plain error the cause of that error, as a plain link.
    pub fn next(&self) -> (next: Option<Chain<'a>>)
        ensures
            next == self.spec_next(),
    {
        match self {
            DynStackError::Record(record) => match &record.cause {
                Some(Cause::Stacked(cause)) => Some(Chain::Stacked(DynStackError::Record(&**cause))),
                Some(Cause::Std(cause)) => Some(Chain::Std(&**cause)),
                None => None,
            },
            DynStackError::Located { location: _, inner } => match &inner.source {
                Some(source) => Some(Chain::Std(&**source)),
                None => None,
            },
        }
    }
}

impl<'a> Chain<'a> {
    /// What this link shows.
    pub open spec fn head(self) -> Link {
        match self {
            Chain::Stacked(error) => Link {
                stacked: true,
                text: error.spec_text(),
                location: Some(error.spec_location()@),
            },
            Chain::Std(error) => Link { stacked: false, text: error.text@, location: None },
        }
    }

    /// The link below this one: for a stacked link what the error says its
    /// cause is, for a plain link the cause of the error, as a plain link.
    pub open spec fn spec_next(self) -> Option<Chain<'a>> {
        match self {
            Chain::Stacked(error) => error.spec_next(),
            Chain::Std(error) => match error.source {
                Some(source) => Some(Chain::Std(&*source)),
                None => None,
            },
        }
    }

    /// The links of the chain that starts here, this link first.
    pub open spec fn links(self) -> Seq<Link> {
        match self {
            Chain::Stacked(error) => error.links(),
            Chain::Std(error) => error.links(),
        }
    }

    /// The link `i` steps below this one, if the chain is that long.
    pub open spec fn nth(self, i: nat) -> Option<Chain<'a>>
        decreases i,
    {
        if i == 0 {
            Some(self)
        } else {
            match self.spec_next() {
                Some(next) => next.nth((i - 1) as nat),
                None => None,
            }
        }
    }

    /// The whole walk: this link, the link below it, and so on to the last.
    pub open spec fn walk(self) -> Seq<Chain<'a>> {
        Seq::new(self.links().len(), |i: int| self.nth(i as nat)->Some_0)
    }

    /// The error of this link as a plain error.
    pub open spec fn spec_inner(self) -> &'a StdError {
        match self {
            Chain::Stacked(error) => error.spec_inner(),
            Chain::Std(error) => error,
        }
    }

    /// Returns the underlying error for this stack layer, as a plain error.
    pub fn inner(&self) -> (inner: &'a StdError)
        ensures
            inner == self.spec_inner(),
            inner.text@ == self.head().text,
    {
        match self {
            Chain::Stacked(stack_error) => stack_error.inner(),
            Chain::Std(error) => error,
        }
    }

    /// Returns the cause that the error of this link shows as a plain
    /// error. For a stacked link this need not be the next link.
    pub fn source(&self) -> (source: Option<&'a StdError>)
        ensures
            source == match self.spec_inner().source {
                Some(boxed) => Some(&*boxed),
                None => None,
            },
    {
        self.inner().source()
    }

    /// Returns the link below this one.
    pub fn next(&self) -> (next: Option<Chain<'a>>)
        ensures
            next == self.spec_next(),
    {
        match self {
            Chain::Stacked(stack_error) => stack_error.next(),
            Chain::Std(error) => match &error.source {
                Some(source) => Some(Chain::Std(&**source)),
                None => None,
            },
        }
    }

    /// Returns the text of the error of this link.
    pub fn text(&self) -> (text: &'a str)
        ensures
            text@ == self.head().text,
    {
        self.inner().text.as_str()
    }

    /// Returns the recorded location: that of a stacked link; a plain link has none.
    pub fn location(&self) -> (location: Option<&'a Location>)
        ensures
            match *self {
                Chain::Stacked(error) => location == Some(&error.spec_location()),
                Chain::Std(_) => location is None,
            },
            match location {
                Some(l) => self.head().location == Some(l@),
                None => self.head().location is None,
            },
    {
        match self {
            Chain::Stacked(stack_error) => Some(stack_error.location()),
            _ => None,
        }
    }

    /// Whether this link is a stacked one.
    pub fn is_stacked(&self) -> (yes: bool)
        ensures
            yes == self.head().stacked,
            yes == (self is Stacked),
    {
        matches!(self, Chain::Stacked(_))
    }

    /// An iterator over the chain that starts at this link.
    pub fn into_iter(self) -> (iter: Iter<'a>)
        ensures
            iter.stack == Some(self),
    {
        Iter { stack: Some(self) }
    }
}

/// A chain is its first link followed by the chain of the link below.
pub proof fn lemma_links_unfold(chain: Chain)
    ensures
        chain.links() == seq![chain.head()] + match chain.spec_next() {
            Some(next) => next.links(),
            None => Seq::empty(),
        },
        chain.links().len() >= 1,
{
    match chain {
        Chain::Stacked(DynStackError::Record(record)) => {
            reveal_with_fuel(StackedError::links, 2);
        },
        Chain::Stacked(DynStackError::Located { location, inner }) => {},
        Chain::Std(error) => {
            reveal_with_fuel(StdError::links, 2);
        },
    }
}

/// Below a plain link there are only plain links.
pub proof fn lemma_plain_stays_plain(chain: Chain)
    requires
        chain is Std,
    ensures
        chain.spec_next() matches Some(next) ==> next is Std,
        forall|i: int| 0 <= i < chain.links().len() ==> !(#[trigger] chain.links()[i]).stacked,
{
    lemma_std_links(chain->Std_0);
}

/// The links of a plain error are all plain.
pub proof fn lemma_std_links(error: &StdError)
    ensures
        forall|i: int| 0 <= i < error.links().len() ==> !(#[trigger] error.links()[i]).stacked,
    decreases error,
{
    match error.source {
        Some(source) => {
            lemma_std_links(&*source);
        },
        None => {},
    }
}

/// Iterator over individual error stack entries.
#[derive(Debug, Clone, Copy)]
pub struct Iter<'a> {
    pub stack: Option<Chain<'a>>,
}

impl<'a> Iter<'a> {
    /// The links that the iterator has yet to yield.
    pub open spec fn remaining(self) -> Seq<Link> {
        match self.stack {
            Some(chain) => chain.links(),
            None => Seq::empty(),
        }
    }

    /// An iterator over the chain of the error `source`, the error itself first.
    pub fn new<E: AsDynStackError>(source: &'a E) -> (iter: Iter<'a>)
        ensures
            iter.stack == Some(Chain::Stacked(source.spec_stack())),
    {
        Iter { stack: Some(Chain::Stacked(source.as_dyn_stack_error())) }
    }

    /// Yields the pending link and moves on to the link below it; yields
    /// nothing once the chain is used up.
    pub fn next(&mut self) -> (item: Option<Chain<'a>>)
        ensures
            item == old(self).stack,
            final(self).stack == match old(self).stack {
                Some(detail) => detail.spec_next(),
                None => None,
            },
            item is Some ==> final(self).remaining() == old(self).remaining().skip(1),
    {
        match self.stack.take() {
            Some(detail) => {
                self.stack = detail.next();
                proof {
                    lemma_links_unfold(detail);
                    assert(self.remaining() =~= detail.links().skip(1));
                }
                Some(detail)
            },
            None => None,
        }
    }
}

/// One more step down is one step from where the walk stands.
pub proof fn lemma_nth_step(chain: Chain, i: nat)
    ensures
        chain.nth(i + 1) == match chain.nth(i) {
            Some(link) => link.spec_next(),
            None => None,
        },
    decreases i,
{
    reveal_with_fuel(Chain::nth, 3);
    if i > 0 {
        match chain.spec_next() {
            Some(next) => {
                lemma_nth_step(next, (i - 1) as nat);
            },
            None => {},
        }
    }
}

/// The walk reaches exactly as many links as the chain has, and from each
/// link that it reaches the rest of the chain follows.
pub proof fn lemma_nth_links(chain: Chain, i: nat)
    ensures
        match chain.nth(i) {
            Some(link) => i < chain.links().len() && link.links() == chain.links().skip(i as int)
                && link.head() == chain.links()[i as int],
            None => i >= chain.links().len(),
        },
    decreases i,
{
    lemma_links_unfold(chain);
    if i == 0 {
        assert(chain.links().skip(0) =~= chain.links());
    } else {
        match chain.spec_next() {
            Some(next) => {
                lemma_nth_links(next, (i - 1) as nat);
                assert(chain.links() =~= seq![chain.head()] + next.links());
                if next.nth((i - 1) as nat) is Some {
                    assert(chain.links().skip(i as int) =~= next.links().skip(i - 1));
                }
            },
            None => {
                assert(chain.links() =~= seq![chain.head()]);
            },
        }
    }
}

/// What an iterator that starts at `root` yields before it is used up: the
/// root first, after each link the link below it, and a last link that has
/// nothing below it.
pub open spec fn is_iteration(root: Chain, yielded: Seq<Chain>) -> bool {
    &&& yielded.len() >= 1
    &&& yielded[0] == root
    &&& forall|i: int|
        0 <= i < yielded.len() - 1 ==> (#[trigger] yielded[i]).spec_next() == Some(yielded[i + 1])
    &&& yielded.last().spec_next() is None
}

/// The walk of a chain is an iteration of it.
pub proof fn lemma_walk_is_iteration(root: Chain)
    ensures
        is_iteration(root, root.walk()),
{
    let walk = root.walk();
    let n = root.links().len();
    lemma_links_unfold(root);
    assert forall|i: int| 0 <= i < n implies root.nth(i as nat) == Some(#[trigger] walk[i]) by {
        lemma_nth_links(root, i as nat);
    }
    assert forall|i: int| 0 <= i < walk.len() - 1 implies (#[trigger] walk[i]).spec_next() == Some(
        walk[i + 1],
    ) by {
        lemma_nth_step(root, i as nat);
        assert(root.nth(i as nat) == Some(walk[i]));
        assert(root.nth((i + 1) as nat) == Some(walk[i + 1]));
    }
    lemma_nth_step(root, (n - 1) as nat);
    lemma_nth_links(root, n);
    assert(root.nth((n - 1) as nat) == Some(walk[n - 1]));
}

/// In an iteration each link but the last is followed by the link below it,
/// and the last by nothing.
pub proof fn lemma_walk_step(root: Chain, walk: Seq<Chain>, i: int)
    requires
        is_iteration(root, walk),
        0 <= i < walk.len(),
    ensures
        walk[i].spec_next() == if i + 1 < walk.len() {
            Some(walk[i + 1])
        } else {
            None
        },
{
}

/// Iterating a chain is repeatable and ends.
///
/// Whatever an iterator yields from `root` until it is used up is the walk
/// of `root`: so two iterations of one root yield the same links in the same
/// order, and each ends after as many links as the chain has.
pub proof fn law_iteration_repeats(root: Chain, first: Seq<Chain>, second: Seq<Chain>)
    requires
        is_iteration(root, first),
        is_iteration(root, second),
    ensures
        first == second,
        first == root.walk(),
        first.len() == root.links().len(),
        is_iteration(root, root.walk()),
{
    lemma_iteration_is_walk(root, first);
    lemma_iteration_is_walk(root, second);
    lemma_walk_is_iteration(root);
}

/// An iteration of a chain is its walk.
proof fn lemma_iteration_is_walk(root: Chain, yielded: Seq<Chain>)
    requires
        is_iteration(root, yielded),
    ensures
        yielded == root.walk(),
{
    assert forall|i: int| 0 <= i < yielded.len() implies root.nth(i as nat) == Some(
        #[trigger] yielded[i],
    ) by {
        lemma_iteration_prefix(root, yielded, i);
    }
    let n = yielded.len();
    lemma_iteration_prefix(root, yielded, n - 1);
    lemma_nth_step(root, (n - 1) as nat);
    lemma_nth_links(root, (n - 1) as nat);
    lemma_nth_links(root, n);
    assert(yielded.len() == root.links().len());
    assert(yielded =~= root.walk());
}

/// The first links of an iteration are where the walk stands after as many steps.
proof fn lemma_iteration_prefix(root: Chain, yielded: Seq<Chain>, i: int)
    requires
        is_iteration(root, yielded),
        0 <= i < yielded.len(),
    ensures
        root.nth(i as nat) == Some(yielded[i]),
    decreases i,
{
    if i > 0 {
        lemma_iteration_prefix(root, yielded, i - 1);
        lemma_nth_step(root, (i - 1) as nat);
        assert(yielded[i - 1].spec_next() == Some(yielded[i]));
    }
}

/// The last stacked link among `walk`, or `fallback` where there is none.
pub open spec fn last_stacked_of<'a>(
    walk: Seq<Chain<'a>>,
    fallback: DynStackError<'a>,
) -> DynStackError<'a>
    decreases walk.len(),
{
    if walk.len() == 0 {
        fallback
    } else {
        match walk.last() {
            Chain::Stacked(error) => error,
            Chain::Std(_) => last_stacked_of(walk.drop_last(), fallback),
        }
    }
}

/// The positions of the plain links of `walk`.
pub open spec fn plain_at(walk: Seq<Chain>) -> spec_fn(int) -> bool {
    |i: int| walk[i] is Std
}

/// The first plain link among `walk`, if there is one.
pub open spec fn first_std_of<'a>(walk: Seq<Chain<'a>>) -> Option<&'a StdError> {
    match least(0, walk.len() as int, plain_at(walk)) {
        Some(i) => Some(walk[i]->Std_0),
        None => None,
    }
}

impl<'a> Chain<'a> {
    /// Returns the deepest link of the chain that starts at this link.
    pub fn last(self) -> (last: Chain<'a>)
        ensures
            last == self.walk().last(),
            last.spec_next() is None,
    {
        let ghost walk = self.walk();
        let ghost mut i: int = 0;
        let mut current = self;
        proof {
            lemma_walk_is_iteration(self);
        }
        loop
            invariant
                walk == self.walk(),
                is_iteration(self, walk),
                0 <= i < walk.len(),
                current == walk[i as int],
            ensures
                current == walk.last(),
                current.spec_next() is None,
            decreases walk.len() - i,
        {
            proof {
                lemma_walk_step(self, walk, i);
            }
            match current.next() {
                Some(next) => {
                    proof {
                        i = i + 1;
                    }
                    current = next;
                },
                None => {
                    break ;
                },
            }
        }
        current
    }

    /// Returns the deepest stacked link of the chain that starts at this
    /// link, or `fallback` where the chain has no stacked link.
    pub fn last_stacked(self, fallback: DynStackError<'a>) -> (last: DynStackError<'a>)
        ensures
            last == last_stacked_of(self.walk(), fallback),
    {
        let ghost walk = self.walk();
        let ghost mut i: int = 0;
        let mut best = fallback;
        let mut current = Some(self);
        proof {
            lemma_walk_is_iteration(self);
            assert(walk.subrange(0, 0) =~= Seq::<Chain<'a>>::empty());
        }
        while current.is_some()
            invariant
                walk == self.walk(),
                is_iteration(self, walk),
                0 <= i <= walk.len(),
                current == if i < walk.len() {
                    Some(walk[i as int])
                } else {
                    None
                },
                best == last_stacked_of(walk.subrange(0, i as int), fallback),
            decreases walk.len() - i,
        {
            let link = current.unwrap();
            proof {
                assert(walk.subrange(0, i + 1).drop_last() =~= walk.subrange(0, i as int));
                assert(walk.subrange(0, i + 1).last() == link);
            }
            if let Chain::Stacked(stack_error) = link {
                best = stack_error;
            }
            current = link.next();
            proof {
                lemma_walk_step(self, walk, i as int);
                i = i + 1;
            }
        }
        proof {
            assert(walk.subrange(0, i as int) =~= walk);
        }
        best
    }

    /// Returns the first plain error of the chain that starts at this link.
    pub fn last_std(self) -> (first: Option<&'a StdError>)
        ensures
            first == first_std_of(self.walk()),
    {
        let ghost walk = self.walk();
        let ghost mut i: int = 0;
        let mut current = Some(self);
        proof {
            lemma_walk_is_iteration(self);
        }
        while current.is_some()
            invariant
                walk == self.walk(),
                is_iteration(self, walk),
                0 <= i <= walk.len(),
                current == if i < walk.len() {
                    Some(walk[i as int])
                } else {
                    None
                },
                forall|j: int| 0 <= j < i ==> !#[trigger] plain_at(walk)(j),
            decreases walk.len() - i,
        {
            let link = current.unwrap();
            if let Chain::Std(error) = link {
                proof {
                    assert(plain_at(walk)(i as int));
                    lemma_least_is(0, walk.len() as int, plain_at(walk), i as int);
                }
                return Some(error);
            }
            current = link.next();
            proof {
                lemma_walk_step(self, walk, i as int);
                i = i + 1;
            }
        }
        proof {
            lemma_least_none(0, walk.len() as int, plain_at(walk));
        }
        None
    }
}

impl<'a> Iter<'a> {
    /// What the iterator yields from here until it is used up.
    pub open spec fn rest(self) -> Seq<Chain<'a>> {
        match self.stack {
            Some(chain) => chain.walk(),
            None => Seq::empty(),
        }
    }

    /// Runs the iterator to its end and returns the links it yields, in order.
    pub fn collect(self) -> (links: Vec<Chain<'a>>)
        ensures
            links@ == self.rest(),
    {
        let mut links: Vec<Chain<'a>> = Vec::new();
        let Some(root) = self.stack else {
            return links;
        };
        let ghost walk = root.walk();
        let mut iter = self;
        proof {
            lemma_walk_is_iteration(root);
        }
        loop
            invariant
                walk == root.walk(),
                is_iteration(root, walk),
                links@.len() <= walk.len(),
                links@ == walk.subrange(0, links@.len() as int),
                iter.stack == if links@.len() < walk.len() {
                    Some(walk[links@.len() as int])
                } else {
                    None
                },
            ensures
                links@ == walk,
            decreases walk.len() - links@.len(),
        {
            let ghost i = links@.len() as int;
            match iter.next() {
                Some(link) => {
                    proof {
                        lemma_walk_step(root, walk, i as int);
                    }
                    links.push(link);
                    assert(links@ =~= walk.subrange(0, i + 1));
                },
                None => {
                    assert(links@ =~= walk);
                    break ;
                },
            }
        }
        links
    }

    /// Runs the iterator to its end and returns the number of links it
    /// yields, or the greatest number where there are more links than that.
    #[verifier::rlimit(30)]
    pub fn count(self) -> (count: usize)
        ensures
            count == if self.rest().len() <= usize::MAX {
                self.rest().len() as usize
            } else {
                usize::MAX
            },
    {
        let Some(root) = self.stack else {
            return 0;
        };
        let ghost walk = root.walk();
        let mut iter = self;
        let mut count: usize = 0;
        proof {
            lemma_walk_is_iteration(root);
        }
        loop
            invariant_except_break
                walk == root.walk(),
                is_iteration(root, walk),
                count <= walk.len(),
                iter.stack == if count < walk.len() {
                    Some(walk[count as int])
                } else {
                    None
                },
            ensures
                count == walk.len() || (count == usize::MAX && walk.len() > usize::MAX),
            decreases walk.len() - count,
        {
            let ghost i = count as int;
            let item = iter.next();
            if item.is_none() {
                break ;
            }
            if count == usize::MAX {
                break ;
            }
            proof {
                lemma_walk_step(root, walk, i as int);
            }
            count += 1;
        }
        count
    }
}

} // verus!
