//! The bounded chain formatter: one line for each link, and a limit on how
//! many plain links are shown after the stacked ones.

use crate::chain::{lemma_links_unfold, lemma_nth_links, lemma_plain_stays_plain, Chain, Link};
use crate::text::{decimal, to_decimal};
use vstd::prelude::*;

verus! {

/// Helper for display [`Chain`]
#[derive(Debug, Clone, Copy)]
pub struct ChainWriter<'a> {
    /// How many plain links are shown at most.
    pub std_limit: usize,
    /// The link that the rendering starts at.
    pub stack: Chain<'a>,
}

impl Link {
    /// The link as text: its text, and for a stacked link `, at ` and its location.
    pub open spec fn text_at(self) -> Seq<char> {
        match self.location {
            Some(location) => self.text + ", at "@ + location.text(),
            None => self.text,
        }
    }
}

/// The line of the link `link` at depth `depth`: `depth: text, at location`,
/// ended by a line feed.
pub open spec fn line(depth: nat, link: Link) -> Seq<char> {
    decimal(depth) + ": "@ + link.text_at() + "\n"@
}

/// The links that are shown of `links` with at most `limit` plain links:
/// all links before the first plain link that would be one too many.
pub open spec fn emitted(links: Seq<Link>, limit: nat) -> Seq<Link>
    decreases links.len(),
{
    if links.len() == 0 {
        Seq::empty()
    } else if links[0].stacked {
        seq![links[0]] + emitted(links.skip(1), limit)
    } else if limit == 0 {
        Seq::empty()
    } else {
        seq![links[0]] + emitted(links.skip(1), (limit - 1) as nat)
    }
}

/// The lines of `links`, the first at depth `depth`, each one deeper than the one before.
pub open spec fn lines(links: Seq<Link>, depth: nat) -> Seq<char>
    decreases links.len(),
{
    if links.len() == 0 {
        Seq::empty()
    } else {
        line(depth, links[0]) + lines(links.skip(1), depth + 1)
    }
}

/// The rendering of a chain with the links `links` with at most `limit` plain links.
pub open spec fn rendered(links: Seq<Link>, limit: nat) -> Seq<char> {
    lines(emitted(links, limit), 0)
}

/// The number of plain links among `links`.
pub open spec fn count_std(links: Seq<Link>) -> nat
    decreases links.len(),
{
    if links.len() == 0 {
        0
    } else {
        count_std(links.skip(1)) + if links[0].stacked {
            0nat
        } else {
            1nat
        }
    }
}

impl<'a> Chain<'a> {
    /// The link as text: the text of its error, and for a stacked link
    /// `, at ` and the location.
    pub fn to_string(&self) -> (text: String)
        ensures
            text@ == self.head().text_at(),
    {
        let mut text = String::new();
        text.append(self.text());
        if let Some(location) = self.location() {
            text.append(", at ");
            text.append(location.to_string().as_str());
        }
        assert(text@ =~= self.head().text_at());
        text
    }
}

/// The beginning of `links` that can be numbered: all of it, unless it has
/// more links than the machine can count.
pub open spec fn countable(links: Seq<Link>) -> Seq<Link> {
    if links.len() <= usize::MAX + 1 {
        links
    } else {
        links.take(usize::MAX + 1)
    }
}

/// One more link makes one more line, at the depth of its place.
pub proof fn lemma_lines_push(links: Seq<Link>, link: Link, depth: nat)
    ensures
        lines(links.push(link), depth) == lines(links, depth) + line(depth + links.len(), link),
    decreases links.len(),
{
    reveal_with_fuel(lines, 2);
    if links.len() == 0 {
        assert(links.push(link).skip(1) =~= Seq::<Link>::empty());
        assert(links.push(link)[0] == link);
        assert(lines(links.push(link), depth) =~= line(depth, link));
        assert(lines(links, depth) + line(depth, link) =~= line(depth, link));
    } else {
        assert(links.push(link)[0] == links[0]);
        assert(links.push(link).skip(1) =~= links.skip(1).push(link));
        lemma_lines_push(links.skip(1), link, depth + 1);
        assert(lines(links.push(link), depth) =~= line(depth, links[0]) + (lines(
            links.skip(1),
            depth + 1,
        ) + line(depth + links.len(), link)));
    }
}

impl<'a> ChainWriter<'a> {
    /// The text that the writer renders: the lines of the links that are
    /// shown, as far as they can be numbered.
    pub open spec fn spec_text(self) -> Seq<char> {
        lines(countable(emitted(self.stack.links(), self.std_limit as nat)), 0)
    }

    /// Renders the chain: one line for each link, the outermost error at
    /// depth 0 and each cause one deeper. Stacked links are always shown; of
    /// the plain links only the first `std_limit` are, and the rendering
    /// stops at the first plain link beyond that. A chain of more links than
    /// the machine can count is cut after the last line that has a number.
    #[verifier::rlimit(30)]
    pub fn to_string(&self) -> (text: String)
        ensures
            text@ == self.spec_text(),
            self.stack.links().len() <= usize::MAX ==> text@ == rendered(
                self.stack.links(),
                self.std_limit as nat,
            ),
    {
        let ghost shown = emitted(self.stack.links(), self.std_limit as nat);
        let mut text = String::new();
        let mut std_remaining = self.std_limit;
        let mut depth: usize = 0;
        let mut current = Some(self.stack);
        proof {
            lemma_emitted_prefix(self.stack.links(), self.std_limit as nat);
            assert(shown.take(0) =~= Seq::<Link>::empty());
            assert(shown.skip(0) =~= shown);
        }
        loop
            invariant_except_break
                shown == emitted(self.stack.links(), self.std_limit as nat),
                depth <= shown.len(),
                text@ == lines(shown.take(depth as int), 0),
                shown.skip(depth as int) == emitted(
                    match current {
                        Some(link) => link.links(),
                        None => Seq::empty(),
                    },
                    std_remaining as nat,
                ),
            ensures
                shown == emitted(self.stack.links(), self.std_limit as nat),
                text@ == lines(countable(shown), 0),
            decreases
                    match current {
                        Some(link) => link.links().len(),
                        None => 0,
                    },
        {
            if current.is_none() {
                assert(shown.take(depth as int) =~= shown);
                break ;
            }
            let link = current.unwrap();
            let ghost below = match link.spec_next() {
                Some(next) => next.links(),
                None => Seq::empty(),
            };
            proof {
                lemma_links_unfold(link);
                assert(link.links().skip(1) =~= below);
                assert(link.links()[0] == link.head());
            }
            if !link.is_stacked() {
                if std_remaining == 0 {
                    assert(shown.take(depth as int) =~= shown);
                    break ;
                }
                std_remaining -= 1;
            }
            let ghost before = text@;
            proof {
                let rest = emitted(below, std_remaining as nat);
                assert(shown.skip(depth as int) == seq![link.head()] + rest);
                assert(shown.skip(depth as int)[0] == link.head());
                assert(shown[depth as int] == link.head());
                assert(shown.skip(depth as int + 1) =~= shown.skip(depth as int).skip(1));
                assert((seq![link.head()] + rest).skip(1) =~= rest);
                assert(shown.take(depth as int + 1) =~= shown.take(depth as int).push(link.head()));
                lemma_lines_push(shown.take(depth as int), link.head(), 0);
            }
            text.append(to_decimal(depth as u64).as_str());
            text.append(": ");
            text.append(link.to_string().as_str());
            text.append("\n");
            assert(text@ =~= before + line(depth as nat, link.head()));
            assert(text@ == lines(shown.take(depth as int + 1), 0));
            if depth == usize::MAX {
                assert(shown.len() == usize::MAX + 1 ==> shown.take(usize::MAX + 1) =~= shown);
                break ;
            }
            depth += 1;
            current = link.next();
        }
        proof {
            lemma_emitted_prefix(self.stack.links(), self.std_limit as nat);
        }
        text
    }
}

/// What is shown of a chain is a beginning of it.
pub proof fn lemma_emitted_prefix(links: Seq<Link>, limit: nat)
    ensures
        emitted(links, limit).len() <= links.len(),
        emitted(links, limit) == links.take(emitted(links, limit).len() as int),
    decreases links.len(),
{
    if links.len() > 0 {
        let rest = links.skip(1);
        if links[0].stacked {
            lemma_emitted_prefix(rest, limit);
            let shown = emitted(rest, limit);
            assert(seq![links[0]] + rest.take(shown.len() as int) =~= links.take(shown.len() as int + 1));
        } else if limit > 0 {
            lemma_emitted_prefix(rest, (limit - 1) as nat);
            let shown = emitted(rest, (limit - 1) as nat);
            assert(seq![links[0]] + rest.take(shown.len() as int) =~= links.take(shown.len() as int + 1));
        } else {
            assert(links.take(0) =~= Seq::<Link>::empty());
        }
    } else {
        assert(links.take(0) =~= Seq::<Link>::empty());
    }
}

/// At most `limit` of the links that are shown are plain.
pub proof fn lemma_emitted_plain(links: Seq<Link>, limit: nat)
    ensures
        count_std(emitted(links, limit)) <= limit,
    decreases links.len(),
{
    if links.len() > 0 {
        let rest = links.skip(1);
        if links[0].stacked {
            lemma_emitted_plain(rest, limit);
            assert((seq![links[0]] + emitted(rest, limit)).skip(1) =~= emitted(rest, limit));
        } else if limit > 0 {
            lemma_emitted_plain(rest, (limit - 1) as nat);
            assert((seq![links[0]] + emitted(rest, (limit - 1) as nat)).skip(1) =~= emitted(
                rest,
                (limit - 1) as nat,
            ));
        }
    }
}

/// A limit that all plain links fit under shows the whole chain.
pub proof fn lemma_emitted_all(links: Seq<Link>, limit: nat)
    requires
        count_std(links) <= limit,
    ensures
        emitted(links, limit) == links,
    decreases links.len(),
{
    if links.len() > 0 {
        let rest = links.skip(1);
        if links[0].stacked {
            lemma_emitted_all(rest, limit);
        } else {
            lemma_emitted_all(rest, (limit - 1) as nat);
        }
        assert(seq![links[0]] + rest =~= links);
    }
}

/// No more links are plain than there are links.
pub proof fn lemma_count_std_bound(links: Seq<Link>)
    ensures
        count_std(links) <= links.len(),
    decreases links.len(),
{
    if links.len() > 0 {
        lemma_count_std_bound(links.skip(1));
    }
}

/// Stacked links at the beginning of a chain are shown whatever the limit.
pub proof fn lemma_leading_stacked_shown(links: Seq<Link>, limit: nat, i: int)
    requires
        0 <= i < links.len(),
        forall|j: int| 0 <= j <= i ==> (#[trigger] links[j]).stacked,
    ensures
        i < emitted(links, limit).len(),
    decreases i,
{
    let rest = links.skip(1);
    assert(links[0].stacked);
    if i > 0 {
        assert forall|j: int| 0 <= j <= i - 1 implies (#[trigger] rest[j]).stacked by {
            assert(links[j + 1].stacked);
        }
        lemma_leading_stacked_shown(rest, limit, i - 1);
    }
}

/// In a chain no stacked link comes after a plain one.
pub proof fn lemma_chain_order(chain: Chain, i: int, j: int)
    requires
        0 <= i <= j < chain.links().len(),
        !chain.links()[i].stacked,
    ensures
        !chain.links()[j].stacked,
{
    lemma_nth_links(chain, i as nat);
    let link = chain.nth(i as nat)->Some_0;
    assert(link.head() == chain.links()[i]);
    assert(link is Std);
    lemma_plain_stays_plain(link);
    assert(link.links()[j - i] == chain.links()[j]);
}

/// The limit bounds the plain links and nothing else.
///
/// Of a chain, rendered with the limit `limit`, a beginning is shown that
/// holds every stacked link of the chain and at most `limit` plain links.
/// With the limit 0 no plain link is shown, and with a limit that is not
/// below the number of links, as the greatest limit is for every chain that
/// fits into memory, every link is shown.
pub proof fn law_limit_semantics(chain: Chain, limit: nat)
    ensures
        emitted(chain.links(), limit).len() <= chain.links().len(),
        emitted(chain.links(), limit) == chain.links().take(
            emitted(chain.links(), limit).len() as int,
        ),
        count_std(emitted(chain.links(), limit)) <= limit,
        forall|i: int|
            0 <= i < chain.links().len() && (#[trigger] chain.links()[i]).stacked ==> i < emitted(
                chain.links(),
                limit,
            ).len(),
        limit == 0 ==> forall|i: int|
            0 <= i < emitted(chain.links(), limit).len() ==> (#[trigger] emitted(
                chain.links(),
                limit,
            )[i]).stacked,
        chain.links().len() <= limit ==> emitted(chain.links(), limit) == chain.links(),
{
    let all = chain.links();
    let shown = emitted(all, limit);
    lemma_emitted_prefix(all, limit);
    lemma_emitted_plain(all, limit);
    assert forall|i: int| 0 <= i < all.len() && (#[trigger] all[i]).stacked implies i
        < shown.len() by {
        assert forall|j: int| 0 <= j <= i implies (#[trigger] all[j]).stacked by {
            if !all[j].stacked {
                lemma_chain_order(chain, j, i);
            }
        }
        lemma_leading_stacked_shown(all, limit, i);
    }
    if limit == 0 {
        assert forall|i: int| 0 <= i < shown.len() implies (#[trigger] shown[i]).stacked by {
            lemma_no_plain(shown, i);
        }
    }
    if all.len() <= limit {
        lemma_count_std_bound(all);
        lemma_emitted_all(all, limit);
    }
}

/// Where no link is counted as plain, every link is stacked.
proof fn lemma_no_plain(links: Seq<Link>, i: int)
    requires
        count_std(links) == 0,
        0 <= i < links.len(),
    ensures
        links[i].stacked,
    decreases i,
{
    if i > 0 {
        lemma_no_plain(links.skip(1), i - 1);
    }
}

} // verus!
