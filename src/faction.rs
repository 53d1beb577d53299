//! Factions, their display palette, and the incremental faction index.
use vstd::prelude::*;

verus! {

/// The side a ship fights for: ships only target ships of other factions.
#[derive(Clone, Copy, Debug, PartialEq, Eq, Hash, Structural)]
pub struct Faction(pub u32);

/// The faction that answers to the player's direction keys.
pub const PLAYER_FACTION: u32 = 1;

/// Number of colors in the display palette.
pub const PALETTE_SIZE: u32 = 5;

/// Display colors of the factions.
#[derive(Clone, Copy, Debug, PartialEq, Eq, Structural)]
pub enum PaletteColor {
    Blue,
    Red,
    Green,
    Yellow,
    Purple,
}

/// The palette entry at `i`, for `i` below `PALETTE_SIZE`.
pub open spec fn palette_entry(i: int) -> PaletteColor {
    if i == 0 {
        PaletteColor::Blue
    } else if i == 1 {
        PaletteColor::Red
    } else if i == 2 {
        PaletteColor::Green
    } else if i == 3 {
        PaletteColor::Yellow
    } else {
        PaletteColor::Purple
    }
}

/// The color of a faction: the palette is walked cyclically, so every faction has one.
pub open spec fn faction_color(f: Faction) -> PaletteColor {
    palette_entry((f.0 % PALETTE_SIZE) as int)
}

impl From<Faction> for PaletteColor {
    fn from(value: Faction) -> (c: PaletteColor) {
        let i: u32 = value.0 % PALETTE_SIZE;
        if i == 0 {
            PaletteColor::Blue
        } else if i == 1 {
            PaletteColor::Red
        } else if i == 2 {
            PaletteColor::Green
        } else if i == 3 {
            PaletteColor::Yellow
        } else {
            PaletteColor::Purple
        }
    }
}

impl vstd::std_specs::convert::FromSpecImpl<Faction> for PaletteColor {
    open spec fn obeys_from_spec() -> bool {
        true
    }

    open spec fn from_spec(v: Faction) -> PaletteColor {
        faction_color(v)
    }
}

/// A faction component that was added to an entity, or taken from it.
#[derive(Clone, Copy, Debug, PartialEq, Eq, Structural)]
pub enum FactionEvent {
    Added(u64, Faction),
    Removed(u64),
}

/// The entity that an event is about.
pub open spec fn event_entity(ev: FactionEvent) -> u64 {
    match ev {
        FactionEvent::Added(e, _) => e,
        FactionEvent::Removed(e) => e,
    }
}

/// The last of `events` that is about entity `e`.
pub open spec fn last_event_for(events: Seq<FactionEvent>, e: u64) -> Option<FactionEvent>
    decreases events.len(),
{
    if events.len() == 0 {
        None
    } else if event_entity(events.last()) == e {
        Some(events.last())
    } else {
        last_event_for(events.drop_last(), e)
    }
}

/// The faction that entity `e` bears after `events`, when it bore none before them.
pub open spec fn current_faction(events: Seq<FactionEvent>, e: u64) -> Option<Faction> {
    match last_event_for(events, e) {
        Some(FactionEvent::Added(_, f)) => Some(f),
        _ => None,
    }
}

/// Among `buckets`, the one of faction `f` holds entity `e`.
pub open spec fn bucket_holds(buckets: Seq<(Faction, Seq<u64>)>, f: Faction, e: u64) -> bool {
    exists|a: int| 0 <= a < buckets.len() && (#[trigger] buckets[a]).0 == f && buckets[a].1.contains(e)
}

/// Whether the bucket of faction `f` holds entity `e` after `events`, for an index
/// whose buckets were `before`.
pub open spec fn holds_after(
    before: Seq<(Faction, Seq<u64>)>,
    events: Seq<FactionEvent>,
    f: Faction,
    e: u64,
) -> bool {
    match last_event_for(events, e) {
        Some(FactionEvent::Added(_, g)) => g == f,
        Some(FactionEvent::Removed(_)) => false,
        None => bucket_holds(before, f, e),
    }
}

proof fn lemma_last_event_push(events: Seq<FactionEvent>, ev: FactionEvent, e: u64)
    ensures
        last_event_for(events.push(ev), e) == if event_entity(ev) == e {
            Some(ev)
        } else {
            last_event_for(events, e)
        },
{
    assert(events.push(ev).drop_last() =~= events);
}

proof fn lemma_insert_buckets(
    mid: Seq<(Faction, Seq<u64>)>,
    now: Seq<(Faction, Seq<u64>)>,
    t: int,
    faction: Faction,
    entity: u64,
    old_members: Seq<u64>,
)
    requires
        forall|a: int, b: int|
            0 <= a < mid.len() && 0 <= b < mid.len() && a != b ==> #[trigger] mid[a].0 != #[trigger] mid[b].0,
        forall|a: int| 0 <= a < mid.len() ==> (#[trigger] mid[a]).1.no_duplicates(),
        forall|a: int, b: int, e: u64|
            #![trigger mid[a].1.contains(e), mid[b].1.contains(e)]
            0 <= a < mid.len() && 0 <= b < mid.len() && a != b && mid[a].1.contains(e)
                ==> !mid[b].1.contains(e),
        forall|c: int| 0 <= c < mid.len() ==> !(#[trigger] mid[c]).1.contains(entity),
        0 <= t <= mid.len(),
        t < mid.len() ==> mid[t].0 == faction && old_members == mid[t].1 && now.len() == mid.len(),
        t == mid.len() ==> old_members == Seq::<u64>::empty() && now.len() == mid.len() + 1
            && forall|c: int| 0 <= c < mid.len() ==> (#[trigger] mid[c]).0 != faction,
        now[t] == (faction, old_members.push(entity)),
        forall|c: int| 0 <= c < now.len() && c != t ==> #[trigger] now[c] == mid[c],
    ensures
        forall|a: int, b: int|
            0 <= a < now.len() && 0 <= b < now.len() && a != b ==> #[trigger] now[a].0 != #[trigger] now[b].0,
        forall|a: int| 0 <= a < now.len() ==> (#[trigger] now[a]).1.no_duplicates(),
        forall|a: int, b: int, e: u64|
            #![trigger now[a].1.contains(e), now[b].1.contains(e)]
            0 <= a < now.len() && 0 <= b < now.len() && a != b && now[a].1.contains(e)
                ==> !now[b].1.contains(e),
        forall|f: Faction, e: u64|
            #[trigger] bucket_holds(now, f, e) <==> if e == entity {
                f == faction
            } else {
                bucket_holds(mid, f, e)
            },
{
    let grown = now[t].1;
    assert(!old_members.contains(entity));
    assert forall|x: u64| #![trigger grown.contains(x)] grown.contains(x) <==> x == entity || old_members.contains(x) by {
        if grown.contains(x) && x != entity {
            let k = choose|k: int| 0 <= k < grown.len() && grown[k] == x;
            assert(old_members[k] == x);
        }
        if old_members.contains(x) {
            let k = choose|k: int| 0 <= k < old_members.len() && old_members[k] == x;
            assert(grown[k] == x);
        }
        if x == entity {
            assert(grown[grown.len() - 1] == x);
        }
    }
    assert forall|p: int, q: int| 0 <= p < grown.len() && 0 <= q < grown.len() && p != q implies grown[p]
        != grown[q] by {
        if q == grown.len() - 1 {
            assert(old_members[p] == grown[p]);
            assert(old_members.contains(grown[p]));
        } else if p == grown.len() - 1 {
            assert(old_members[q] == grown[q]);
            assert(old_members.contains(grown[q]));
        } else {
            assert(old_members[p] == grown[p] && old_members[q] == grown[q]);
        }
    }
    assert forall|a: int, b: int|
        0 <= a < now.len() && 0 <= b < now.len() && a != b implies #[trigger] now[a].0 != #[trigger] now[b].0 by {
        if a != t && b != t {
            assert(now[a] == mid[a] && now[b] == mid[b]);
        } else if a == t {
            assert(now[b] == mid[b]);
        } else {
            assert(now[a] == mid[a]);
        }
    }
    assert forall|a: int| 0 <= a < now.len() implies (#[trigger] now[a]).1.no_duplicates() by {
        if a != t {
            assert(now[a] == mid[a]);
        }
    }
    assert forall|a: int, b: int, e: u64|
        0 <= a < now.len() && 0 <= b < now.len() && a != b && now[a].1.contains(e) implies !now[b].1.contains(e) by {
        if a != t && b != t {
            assert(now[a] == mid[a] && now[b] == mid[b]);
            assert(mid[a].1.contains(e));
        } else if a == t {
            assert(now[b] == mid[b]);
            if e != entity && t < mid.len() {
                assert(mid[t].1.contains(e));
            }
        } else {
            assert(now[a] == mid[a]);
            if e != entity && t < mid.len() {
                assert(mid[a].1.contains(e));
            }
        }
    }
    assert forall|f: Faction, e: u64|
        #[trigger] bucket_holds(now, f, e) <==> if e == entity {
            f == faction
        } else {
            bucket_holds(mid, f, e)
        } by {
        if bucket_holds(now, f, e) {
            let b = choose|b: int| 0 <= b < now.len() && (#[trigger] now[b]).0 == f && now[b].1.contains(e);
            if b != t {
                assert(now[b] == mid[b]);
                assert(mid[b].1.contains(e));
            } else if e != entity {
                assert(mid[t].1.contains(e));
            }
        }
        if e == entity && f == faction {
            assert(now[t].1.contains(entity));
        }
        if e != entity && bucket_holds(mid, f, e) {
            let b = choose|b: int| 0 <= b < mid.len() && (#[trigger] mid[b]).0 == f && mid[b].1.contains(e);
            if b == t {
                assert(now[t].1.contains(e));
            } else {
                assert(now[b] == mid[b]);
            }
        }
    }
}

/// The members of one faction.
#[derive(Debug)]
pub struct FactionBucket {
    pub faction: Faction,
    pub members: Vec<u64>,
}

/// A persistent mapping from each faction to the entities that bear it, updated one
/// event at a time.
#[derive(Debug)]
pub struct FactionIndex {
    buckets: Vec<FactionBucket>,
}

impl View for FactionIndex {
    type V = Seq<(Faction, Seq<u64>)>;

    closed spec fn view(&self) -> Seq<(Faction, Seq<u64>)> {
        self.buckets@.map_values(|b: FactionBucket| (b.faction, b.members@))
    }
}

/// `members` without `e`, in the same order.
fn without(members: &Vec<u64>, e: u64) -> (r: Vec<u64>)
    requires
        members@.no_duplicates(),
    ensures
        r@.no_duplicates(),
        forall|x: u64| r@.contains(x) <==> x != e && members@.contains(x),
{
    let mut r: Vec<u64> = Vec::new();
    let mut i: usize = 0;
    while i < members.len()
        invariant
            members@.no_duplicates(),
            i <= members@.len(),
            r@.no_duplicates(),
            forall|x: u64|
                #![trigger r@.contains(x)]
                #![trigger members@.take(i as int).contains(x)]
                r@.contains(x) <==> x != e && members@.take(i as int).contains(x),
        decreases members@.len() - i,
    {
        let m = members[i];
        let ghost prev = r@;
        let ghost done = members@.take(i as int);
        let ghost next = members@.take(i + 1);
        assert(next =~= done.push(m));
        if m != e {
            assert(!done.contains(m)) by {
                if done.contains(m) {
                    let k = choose|k: int| 0 <= k < i && done[k] == m;
                    assert(members@[k] == members@[i as int]);
                }
            }
            assert(!prev.contains(m));
            r.push(m);
            assert forall|p: int, q: int| 0 <= p < r@.len() && 0 <= q < r@.len() && p != q implies r@[p]
                != r@[q] by {
                if q == prev.len() {
                    assert(prev[p] == r@[p]);
                } else if p == prev.len() {
                    assert(prev[q] == r@[q]);
                } else {
                    assert(prev[p] == r@[p] && prev[q] == r@[q]);
                }
            }
            assert forall|x: u64| #![trigger r@.contains(x)] #![trigger next.contains(x)] r@.contains(x) <==> x != e && next.contains(x) by {
                if done.contains(x) && x != e {
                    assert(prev.contains(x));
                    let k = choose|k: int| 0 <= k < prev.len() && prev[k] == x;
                    assert(r@[k] == x);
                }
                if r@.contains(x) && x != m {
                    let k = choose|k: int| 0 <= k < r@.len() && r@[k] == x;
                    assert(prev[k] == x);
                    assert(prev.contains(x));
                    assert(done.contains(x));
                    let k2 = choose|k2: int| 0 <= k2 < done.len() && done[k2] == x;
                    assert(next[k2] == x);
                }
                if next.contains(x) && x != m {
                    let k = choose|k: int| 0 <= k < i + 1 && next[k] == x;
                    assert(done[k] == x);
                }
                if x == m {
                    assert(r@[prev.len() as int] == m);
                    assert(next[i as int] == m);
                }
            }
        } else {
            assert forall|x: u64| #![trigger r@.contains(x)] #![trigger next.contains(x)] r@.contains(x) <==> x != e && next.contains(x) by {
                if next.contains(x) && x != m {
                    let k = choose|k: int| 0 <= k < i + 1 && next[k] == x;
                    assert(done[k] == x);
                }
                if done.contains(x) {
                    let k = choose|k: int| 0 <= k < i && done[k] == x;
                    assert(next[k] == x);
                }
            }
        }
        i = i + 1;
        assert(members@.take(i as int) =~= next);
    }
    assert(members@.take(members@.len() as int) =~= members@);
    r
}

impl FactionIndex {
    /// Bucket factions are distinct, and every entity stands at most once in at most
    /// one bucket.
    pub open spec fn wf(&self) -> bool {
        &&& forall|a: int, b: int|
            0 <= a < self@.len() && 0 <= b < self@.len() && a != b ==> #[trigger] self@[a].0
                != #[trigger] self@[b].0
        &&& forall|a: int| 0 <= a < self@.len() ==> (#[trigger] self@[a]).1.no_duplicates()
        &&& forall|a: int, b: int, e: u64|
            #![trigger self@[a].1.contains(e), self@[b].1.contains(e)]
            0 <= a < self@.len() && 0 <= b < self@.len() && a != b && self@[a].1.contains(e)
                ==> !self@[b].1.contains(e)
    }

    /// Entity `e` stands in the bucket of faction `f`.
    pub open spec fn holds(&self, f: Faction, e: u64) -> bool {
        bucket_holds(self@, f, e)
    }

    /// An index with no buckets.
    pub fn new() -> (r: FactionIndex)
        ensures
            r.wf(),
            r@.len() == 0,
            forall|f: Faction, e: u64| !r.holds(f, e),
    {
        let r = FactionIndex { buckets: Vec::new() };
        assert(r@.len() == 0);
        r
    }

    fn find_bucket(&self, f: Faction) -> (r: Option<usize>)
        ensures
            match r {
                Some(a) => a < self@.len() && self@[a as int].0 == f,
                None => forall|a: int| 0 <= a < self@.len() ==> (#[trigger] self@[a]).0 != f,
            },
    {
        let mut a: usize = 0;
        while a < self.buckets.len()
            invariant
                a <= self@.len(),
                self@.len() == self.buckets@.len(),
                forall|b: int| 0 <= b < a ==> (#[trigger] self@[b]).0 != f,
            decreases self@.len() - a,
        {
            assert(self@[a as int].0 == self.buckets@[a as int].faction);
            if self.buckets[a].faction == f {
                return Some(a);
            }
            a = a + 1;
        }
        None
    }

    /// Puts `entity` in the bucket of `faction`, and in no other.
    pub fn insert(&mut self, entity: u64, faction: Faction)
        requires
            old(self).wf(),
        ensures
            final(self).wf(),
            forall|f: Faction, e: u64|
                #[trigger] final(self).holds(f, e) <==> if e == entity {
                    f == faction
                } else {
                    old(self).holds(f, e)
                },
    {
        self.remove(entity);
        let ghost mid_index = *self;
        let ghost mid = self@;
        assert forall|c: int| 0 <= c < mid.len() implies !(#[trigger] mid[c]).1.contains(entity) by {
            if mid[c].1.contains(entity) {
                assert(mid_index.holds(mid[c].0, entity));
            }
        }
        let ghost t: int;
        match self.find_bucket(faction) {
            Some(a) => {
                let ghost prev = self.buckets@;
                assert(mid[a as int] == (prev[a as int].faction, prev[a as int].members@));
                let mut bucket = self.buckets.remove(a);
                bucket.members.push(entity);
                let ghost grown = bucket.members@;
                self.buckets.insert(a, bucket);
                assert(self.buckets@ =~= prev.update(a as int, self.buckets@[a as int]));
                assert(self@ =~= mid.update(a as int, (faction, grown)));
                proof {
                    t = a as int;
                }
            },
            None => {
                let mut members: Vec<u64> = Vec::new();
                members.push(entity);
                let ghost single = members@;
                self.buckets.push(FactionBucket { faction, members });
                assert(self@ =~= mid.push((faction, single)));
                proof {
                    t = mid.len() as int;
                }
            },
        }
        proof {
            let old_members = if t < mid.len() { mid[t].1 } else { Seq::<u64>::empty() };
            assert(self@[t] == (faction, old_members.push(entity)));
            assert(self@.len() == mid.len() || (self@.len() == mid.len() + 1 && t == mid.len()));
            assert forall|c: int| 0 <= c < self@.len() && c != t implies #[trigger] self@[c] == mid[c] by {}
            assert(t < mid.len() ==> self@.len() == mid.len());
            lemma_insert_buckets(mid, self@, t, faction, entity, old_members);
            assert forall|f: Faction, e: u64|
                #[trigger] self.holds(f, e) <==> if e == entity {
                    f == faction
                } else {
                    old(self).holds(f, e)
                } by {
                if e != entity {
                    assert(mid_index.holds(f, e) <==> old(self).holds(f, e));
                }
            }
        }
    }

    /// Applies `events` in order: an added faction puts the entity in that faction's
    /// bucket alone, a removal takes it out of every bucket.
    pub fn apply_events(&mut self, events: &Vec<FactionEvent>)
        requires
            old(self).wf(),
        ensures
            final(self).wf(),
            forall|f: Faction, e: u64|
                #[trigger] final(self).holds(f, e) <==> holds_after(old(self)@, events@, f, e),
    {
        let ghost start = self@;
        let mut i: usize = 0;
        while i < events.len()
            invariant
                i <= events@.len(),
                self.wf(),
                forall|f: Faction, e: u64|
                    #[trigger] self.holds(f, e) <==> holds_after(start, events@.take(i as int), f, e),
            decreases events@.len() - i,
        {
            let ev = events[i];
            let ghost before = *self;
            let ghost done = events@.take(i as int);
            assert(events@.take(i + 1) =~= done.push(ev));
            match ev {
                FactionEvent::Added(e, f) => self.insert(e, f),
                FactionEvent::Removed(e) => self.remove(e),
            }
            assert forall|f: Faction, x: u64|
                #[trigger] self.holds(f, x) <==> holds_after(start, events@.take(i + 1), f, x) by {
                lemma_last_event_push(done, ev, x);
                assert(before.holds(f, x) <==> holds_after(start, done, f, x));
            }
            i = i + 1;
        }
        assert(events@.take(events@.len() as int) =~= events@);
    }

    /// The index built from nothing by `events`: each entity stands in exactly the
    /// bucket of the faction that its last event gave it, and in none if that event
    /// removed its faction.
    pub fn from_events(events: &Vec<FactionEvent>) -> (r: FactionIndex)
        ensures
            r.wf(),
            forall|f: Faction, e: u64| #[trigger] r.holds(f, e) <==> current_faction(events@, e) == Some(f),
    {
        let mut r = FactionIndex::new();
        r.apply_events(events);
        assert forall|f: Faction, e: u64| #[trigger] r.holds(f, e) <==> current_faction(events@, e) == Some(f) by {
            assert(!bucket_holds(Seq::<(Faction, Seq<u64>)>::empty(), f, e));
        }
        r
    }

    /// The entities in the bucket of faction `f`, each once; empty if there is none.
    pub fn members(&self, f: Faction) -> (r: Vec<u64>)
        requires
            self.wf(),
        ensures
            r@.no_duplicates(),
            forall|e: u64| #[trigger] r@.contains(e) <==> self.holds(f, e),
    {
        let mut r: Vec<u64> = Vec::new();
        match self.find_bucket(f) {
            Some(a) => {
                let bucket = &self.buckets[a];
                assert(self@[a as int] == (bucket.faction, bucket.members@));
                let mut k: usize = 0;
                while k < bucket.members.len()
                    invariant
                        k <= bucket.members@.len(),
                        r@ == bucket.members@.take(k as int),
                    decreases bucket.members@.len() - k,
                {
                    r.push(bucket.members[k]);
                    k = k + 1;
                    assert(r@ =~= bucket.members@.take(k as int));
                }
                assert(r@ =~= self@[a as int].1);
                assert forall|e: u64| #[trigger] r@.contains(e) <==> self.holds(f, e) by {
                    if self.holds(f, e) {
                        let b = choose|b: int| 0 <= b < self@.len() && (#[trigger] self@[b]).0 == f && self@[b].1.contains(e);
                        assert(b == a);
                    }
                }
            },
            None => {
                assert(r@.len() == 0);
            },
        }
        r
    }

    /// Takes `entity` out of every bucket; nothing changes for an entity that stands in none.
    pub fn remove(&mut self, entity: u64)
        requires
            old(self).wf(),
        ensures
            final(self).wf(),
            forall|f: Faction, e: u64|
                #[trigger] final(self).holds(f, e) <==> e != entity && old(self).holds(f, e),
    {
        let ghost start = self@;
        let mut a: usize = 0;
        while a < self.buckets.len()
            invariant
                self@.len() == start.len(),
                a <= self@.len(),
                forall|b: int| 0 <= b < self@.len() ==> (#[trigger] self@[b]).0 == start[b].0,
                forall|b: int| 0 <= b < self@.len() ==> (#[trigger] self@[b]).1.no_duplicates(),
                forall|b: int| a <= b < self@.len() ==> #[trigger] self@[b] == start[b],
                forall|b: int, x: u64|
                    #![trigger self@[b].1.contains(x)]
                    #![trigger start[b].1.contains(x)]
                    0 <= b < a ==> (self@[b].1.contains(x) <==> x != entity
                        && start[b].1.contains(x)),
                forall|b: int, c: int|
                    0 <= b < start.len() && 0 <= c < start.len() && b != c ==> #[trigger] start[b].0
                        != #[trigger] start[c].0,
                forall|b: int| 0 <= b < start.len() ==> (#[trigger] start[b]).1.no_duplicates(),
                forall|b: int, c: int, e: u64|
                    #![trigger start[b].1.contains(e), start[c].1.contains(e)]
                    0 <= b < start.len() && 0 <= c < start.len() && b != c
                        && start[b].1.contains(e) ==> !start[c].1.contains(e),
            decreases self@.len() - a,
        {
            let ghost prev = self.buckets@;
            let ghost prev_view = self@;
            assert(self@[a as int] == (prev[a as int].faction, prev[a as int].members@));
            let bucket = self.buckets.remove(a);
            let members = without(&bucket.members, entity);
            let ghost kept = members@;
            self.buckets.insert(a, FactionBucket { faction: bucket.faction, members });
            assert(self.buckets@ =~= prev.update(a as int, self.buckets@[a as int]));
            assert(self@ =~= prev_view.update(a as int, (bucket.faction, kept)));
            a = a + 1;
        }
        assert forall|f: Faction, e: u64| #[trigger] self.holds(f, e) <==> e != entity && old(self).holds(f, e) by {
            if self.holds(f, e) {
                let b = choose|b: int| 0 <= b < self@.len() && (#[trigger] self@[b]).0 == f && self@[b].1.contains(e);
                assert(start[b].0 == f && start[b].1.contains(e));
            }
            if e != entity && old(self).holds(f, e) {
                let b = choose|b: int| 0 <= b < start.len() && (#[trigger] start[b]).0 == f && start[b].1.contains(e);
                assert(self@[b].1.contains(e));
            }
        }
    }
}

/// In a well-formed index an entity stands in the bucket of one faction at most: the
/// faction that holds it is the only one.
pub proof fn lemma_one_bucket_per_entity(index: FactionIndex, f: Faction, g: Faction, e: u64)
    requires
        index.wf(),
        index.holds(f, e),
        index.holds(g, e),
    ensures
        f == g,
{
    let a = choose|a: int| 0 <= a < index@.len() && (#[trigger] index@[a]).0 == f && index@[a].1.contains(e);
    let b = choose|b: int| 0 <= b < index@.len() && (#[trigger] index@[b]).0 == g && index@[b].1.contains(e);
    if a != b {
        assert(!index@[b].1.contains(e));
    }
}

} // verus!
