//! Resolvers: what is done to the events once they are all there, for
//! constructs that are known only by what stands in front of them.

use vstd::prelude::*;
use crate::code::Code;
use crate::construct::heading_setext;
use crate::event::{Event, Point, chunkless, covers, nested, open_tokens, tiled, traced};

verus! {

/// The name of a resolver.
#[derive(Clone, Copy, Debug, PartialEq, Eq, Structural)]
pub enum Resolver {
    /// Makes headings of the paragraphs that an underline stands under.
    HeadingSetext,
}

/// The resolvers of flow, in the order in which they run.
pub open spec fn flow_resolvers() -> Seq<Resolver> {
    seq![Resolver::HeadingSetext]
}

/// The resolvers of flow, in the order in which they run.
pub fn resolvers() -> (list: Vec<Resolver>)
    ensures
        list@ == flow_resolvers(),
{
    let list = vec![Resolver::HeadingSetext];
    proof {
        assert(list@ =~= flow_resolvers());
    }
    list
}

/// What `resolver` makes of `events`, where the first of `codes` has the
/// index `base`.
pub open spec fn resolved_by(
    resolver: Resolver,
    events: Seq<Event>,
    codes: Seq<Code>,
    base: int,
) -> Seq<Event> {
    match resolver {
        Resolver::HeadingSetext => heading_setext::with_headings(events, codes, base, 0),
    }
}

/// What the first `n` of `resolvers` make of `events`, one after the other.
pub open spec fn resolved_with(
    resolvers: Seq<Resolver>,
    events: Seq<Event>,
    codes: Seq<Code>,
    base: int,
    n: nat,
) -> Seq<Event>
    decreases n,
{
    if n == 0 || n > resolvers.len() {
        events
    } else {
        resolved_by(
            resolvers[n - 1],
            resolved_with(resolvers, events, codes, base, (n - 1) as nat),
            codes,
            base,
        )
    }
}

/// Run `resolvers` on `events`, one after the other. The first of `codes`
/// has the index `base`.
pub fn resolve(resolvers: &Vec<Resolver>, events: Vec<Event>, codes: &[Code], base: usize) -> (out:
    Vec<Event>)
    ensures
        out@ == resolved_with(resolvers@, events@, codes@, base as int, resolvers@.len()),
        nested(events@) && tiled(events@) ==> {
            &&& nested(out@)
            &&& open_tokens(out@) == open_tokens(events@)
            &&& tiled(out@)
            &&& forall|start: int, end: int|
                covers(events@, start, end) ==> covers(out@, start, end)
        },
        chunkless(events@) ==> chunkless(out@),
        forall|point: Point, index: int, fed: Seq<Code>|
            traced(events@, point, index, fed) ==> #[trigger] traced(out@, point, index, fed),
{
    let mut out = events;
    let mut i: usize = 0;
    while i < resolvers.len()
        invariant
            i <= resolvers.len(),
            out@ == resolved_with(resolvers@, events@, codes@, base as int, i as nat),
            nested(events@) && tiled(events@) ==> {
                &&& nested(out@)
                &&& open_tokens(out@) == open_tokens(events@)
                &&& tiled(out@)
                &&& forall|start: int, end: int|
                    covers(events@, start, end) ==> covers(out@, start, end)
            },
            chunkless(events@) ==> chunkless(out@),
            forall|point: Point, index: int, fed: Seq<Code>|
                traced(events@, point, index, fed) ==> #[trigger] traced(out@, point, index, fed),
        decreases resolvers.len() - i,
    {
        match resolvers[i] {
            Resolver::HeadingSetext => {
                out = heading_setext::resolve(out, codes, base);
            },
        }
        i = i + 1;
    }
    out
}

} // verus!
