//! Thumbnails: which are asked for, which are kept, and which go first.

use vstd::prelude::*;

use crate::full::{self, decode_size};
use crate::lists;
use crate::text;
use std::collections::VecDeque;
use vstd::hash_map::StringHashMap;
use vstd::hash_set::StringHashSet;

verus! {

pub const THUMB_MAX_DIM: u32 = 512;

/// Upper bound on live thumbnail textures. A folder of several thousand PNGs
/// would otherwise pin gigabytes of graphics memory. Eviction is
/// least-recently-drawn, so it can only ever take an off-screen texture;
/// evicted rows ask for their thumbnail again when they scroll back into view.
pub const MAX_TEXTURES: usize = 512;

/// The size at which a thumbnail is decoded: the image fitted into a square
/// box, never enlarged.
pub fn thumb_size(source: [u32; 2]) -> (size: [u32; 2])
    ensures
        full::sides(size) == full::fitted(
            source@[0] as nat,
            source@[1] as nat,
            THUMB_MAX_DIM as nat,
            u64::MAX as nat,
        ),
{
    decode_size(source, THUMB_MAX_DIM, u64::MAX)
}

// ---------------------------------------------------------------------------
// Requests
// ---------------------------------------------------------------------------

/// The paths whose thumbnails are being decoded: queued but not yet returned.
/// Doubles as request de-duplication and as the pending count, so the two can
/// never drift apart.
pub struct ThumbPool {
    in_flight: StringHashSet,
}

impl View for ThumbPool {
    type V = Set<Seq<char>>;

    closed spec fn view(&self) -> Set<Seq<char>> {
        self.in_flight@
    }
}

impl ThumbPool {
    pub fn new() -> (pool: ThumbPool)
        ensures
            pool@ == Set::<Seq<char>>::empty(),
    {
        ThumbPool { in_flight: StringHashSet::new() }
    }

    /// Asks for a decode. A path already in flight is a no-op, so a missing
    /// thumbnail may be asked for every frame without piling up work. The
    /// decode is to be queued when this returns true.
    pub fn request(&mut self, path: &str) -> (queue: bool)
        ensures
            queue == !old(self)@.contains(path@),
            final(self)@ == old(self)@.insert(path@),
    {
        if self.in_flight.contains(path) {
            assert(self@ =~= self@.insert(path@));
            return false;
        }
        let _ = self.in_flight.insert(path.to_owned());
        true
    }

    /// Takes a request back that could not be queued.
    pub fn refused(&mut self, path: &str)
        ensures
            final(self)@ == old(self)@.remove(path@),
    {
        let _ = self.in_flight.remove(path);
    }

    /// Takes note of the decodes that came back.
    pub fn poll(&mut self, finished: &Vec<String>)
        ensures
            final(self)@ == old(self)@.difference(text::texts(finished@).to_set()),
    {
        let ghost before = self@;
        let ghost done = text::texts(finished@);
        for i in 0..finished.len()
            invariant
                done == text::texts(finished@),
                self@ == before.difference(done.take(i as int).to_set()),
        {
            let ghost so_far = done.take(i as int);
            let _ = self.in_flight.remove(finished[i].as_str());
            proof {
                assert(done[i as int] == finished@[i as int]@);
                assert(done.take(i + 1) =~= so_far.push(done[i as int]));
                assert forall|path: Seq<char>| #[trigger]
                    done.take(i + 1).to_set().contains(path) <==> so_far.to_set().contains(path)
                        || path == done[i as int] by {
                    if so_far.contains(path) {
                        let k = choose|k: int| 0 <= k < so_far.len() && so_far[k] == path;
                        assert(done.take(i + 1)[k] == path);
                    }
                    if path == done[i as int] {
                        assert(done.take(i + 1)[i as int] == path);
                    }
                }
                assert(self@ =~= before.difference(done.take(i + 1).to_set()));
            }
        }
        assert(done.take(finished@.len() as int) =~= done);
    }

    /// How many decodes are under way.
    pub fn pending(&self) -> (count: usize)
        ensures
            count == self@.len(),
    {
        self.in_flight.len()
    }
}

// ---------------------------------------------------------------------------
// Textures
// ---------------------------------------------------------------------------

/// Live textures by path, and the order in which they were last drawn, least
/// recently first.
#[verifier::reject_recursive_types(T)]
pub struct Textures<T> {
    order: VecDeque<String>,
    live: StringHashMap<T>,
}

impl<T> Textures<T> {
    /// The paths in the order in which they were last drawn.
    pub closed spec fn order(self) -> Seq<Seq<char>> {
        text::texts(self.order@)
    }

    /// The textures by path.
    pub closed spec fn live(self) -> Map<Seq<char>, T> {
        self.live@
    }

    /// Whether order and textures are one-to-one.
    pub open spec fn valid(self) -> bool {
        self.order().no_duplicates() && self.order().to_set() == self.live().dom()
    }

    pub fn new() -> (textures: Textures<T>)
        ensures
            textures.valid(),
            textures.order() == Seq::<Seq<char>>::empty(),
            textures.live() == Map::<Seq<char>, T>::empty(),
    {
        let textures = Textures { order: VecDeque::new(), live: StringHashMap::new() };
        assert(textures.order() =~= Seq::empty());
        assert(textures.order().to_set() =~= Set::empty());
        assert(textures.live().dom() =~= Set::empty());
        textures
    }

    /// How many textures there are.
    pub fn len(&self) -> (count: usize)
        ensures
            count == self.order().len(),
    {
        self.order.len()
    }

    pub fn contains_key(&self, path: &str) -> (found: bool)
        ensures
            found == self.live().contains_key(path@),
    {
        self.live.contains_key(path)
    }

    pub fn get(&self, path: &str) -> (texture: Option<&T>)
        ensures
            match texture {
                Some(texture) => self.live().contains_key(path@) && *texture == self.live()[path@],
                None => !self.live().contains_key(path@),
            },
    {
        self.live.get(path)
    }

    /// The paths in the order in which they were last drawn.
    pub fn paths(&self) -> (paths: Vec<String>)
        ensures
            text::texts(paths@) == self.order(),
    {
        let mut paths: Vec<String> = Vec::new();
        for i in 0..self.order.len()
            invariant
                text::texts(paths@) == self.order().take(i as int),
        {
            let ghost before = text::texts(paths@);
            paths.push(self.order[i].clone());
            assert(text::texts(paths@) =~= before.push(self.order@[i as int]@));
            assert(self.order().take(i + 1) =~= self.order().take(i as int).push(
                self.order@[i as int]@,
            ));
        }
        assert(self.order().take(self.order@.len() as int) =~= self.order());
        paths
    }

    /// Adds a texture, or replaces the one of that path. A new one counts as
    /// drawn last.
    pub fn insert(&mut self, path: String, texture: T)
        requires
            old(self).valid(),
        ensures
            final(self).valid(),
            final(self).live() == old(self).live().insert(path@, texture),
            final(self).order() == (if old(self).live().contains_key(path@) {
                old(self).order()
            } else {
                old(self).order().push(path@)
            }),
    {
        let ghost before = self.order();
        let ghost name = path@;
        if !self.live.contains_key(path.as_str()) {
            self.order.push_back(path.clone());
            assert(self.order() =~= before.push(name));
            assert(!before.contains(name)) by {
                assert(before.to_set().contains(name) == before.contains(name));
            }
            assert(self.order().to_set() =~= before.to_set().insert(name)) by {
                pushed_set(before, name);
            }
        } else {
            assert(self.live().dom().insert(name) =~= self.live().dom());
        }
        self.live.insert(path, texture);
        assert(self.live().dom() =~= old(self).live().dom().insert(name));
    }
}

proof fn pushed_set(list: Seq<Seq<char>>, item: Seq<char>)
    ensures
        list.push(item).to_set() == list.to_set().insert(item),
{
    assert forall|x: Seq<char>| #[trigger] list.push(item).to_set().contains(x) <==> list.to_set()
        .insert(item).contains(x) by {
        if list.contains(x) {
            let i = choose|i: int| 0 <= i < list.len() && list[i] == x;
            assert(list.push(item)[i] == x);
        }
        if x == item {
            assert(list.push(item)[list.len() as int] == x);
        }
    }
    assert(list.push(item).to_set() =~= list.to_set().insert(item));
}

/// The paths among `drawn` that have a texture, each at its first place.
pub open spec fn drawn_once(drawn: Seq<Seq<char>>, live: Set<Seq<char>>) -> Seq<Seq<char>>
    decreases drawn.len(),
{
    if drawn.len() == 0 {
        Seq::empty()
    } else {
        let before = drawn_once(drawn.drop_last(), live);
        if live.contains(drawn.last()) && !before.contains(drawn.last()) {
            before.push(drawn.last())
        } else {
            before
        }
    }
}

/// The order after drawing: what was drawn moves to the end, in draw order.
pub open spec fn touched(
    order: Seq<Seq<char>>,
    live: Set<Seq<char>>,
    drawn: Seq<Seq<char>>,
) -> Seq<Seq<char>> {
    let last = drawn_once(drawn, live);
    lists::picked(order, |path: Seq<char>| !last.contains(path)) + last
}

/// What was drawn, and nothing twice.
pub proof fn drawn_once_is_what_was_drawn(drawn: Seq<Seq<char>>, live: Set<Seq<char>>)
    ensures
        drawn_once(drawn, live).no_duplicates(),
        forall|path: Seq<char>|
            #![trigger drawn.contains(path)]
            #![trigger drawn_once(drawn, live).contains(path)]
            drawn_once(drawn, live).contains(path) <==> drawn.contains(path) && live.contains(
                path,
            ),
    decreases drawn.len(),
{
    if drawn.len() > 0 {
        let rest = drawn.drop_last();
        let before = drawn_once(rest, live);
        let all = drawn_once(drawn, live);
        drawn_once_is_what_was_drawn(rest, live);
        assert forall|path: Seq<char>|
            #![trigger drawn.contains(path)]
            #![trigger all.contains(path)]
            all.contains(path) <==> drawn.contains(path) && live.contains(path) by {
            if drawn.contains(path) && live.contains(path) {
                let i = choose|i: int| 0 <= i < drawn.len() && drawn[i] == path;
                if i < rest.len() {
                    assert(rest[i] == path);
                    assert(rest.contains(path));
                    let k = choose|k: int| 0 <= k < before.len() && before[k] == path;
                    assert(all[k] == path);
                } else if !before.contains(path) {
                    assert(all[all.len() - 1] == path);
                } else {
                    let k = choose|k: int| 0 <= k < before.len() && before[k] == path;
                    assert(all[k] == path);
                }
            }
            if all.contains(path) {
                let k = choose|k: int| 0 <= k < all.len() && all[k] == path;
                if k < before.len() {
                    assert(before[k] == path);
                    assert(rest.contains(path));
                    let i = choose|i: int| 0 <= i < rest.len() && rest[i] == path;
                    assert(drawn[i] == path);
                } else {
                    assert(drawn[drawn.len() - 1] == path);
                }
            }
        }
    }
}

proof fn picked_has_no_duplicates<A>(list: Seq<A>, passes: spec_fn(A) -> bool)
    requires
        list.no_duplicates(),
    ensures
        lists::picked(list, passes).no_duplicates(),
    decreases list.len(),
{
    if list.len() > 0 {
        let rest = list.drop_last();
        picked_has_no_duplicates(rest, passes);
        lists::picked_keeps_what_passes(rest, passes);
        let before = lists::picked(rest, passes);
        assert forall|i: int| 0 <= i < before.len() implies #[trigger] before[i]
            != list.last() by {
            assert(rest.contains(before[i]));
            let k = choose|k: int| 0 <= k < rest.len() && rest[k] == before[i];
            assert(list[k] == before[i]);
        }
    }
}

/// Drawing keeps order and textures one-to-one: every path stays, once.
pub proof fn touching_loses_nothing(
    order: Seq<Seq<char>>,
    live: Set<Seq<char>>,
    drawn: Seq<Seq<char>>,
)
    requires
        order.no_duplicates(),
        order.to_set() == live,
    ensures
        touched(order, live, drawn).no_duplicates(),
        touched(order, live, drawn).to_set() == live,
{
    let last = drawn_once(drawn, live);
    let passes = |path: Seq<char>| !last.contains(path);
    let first = lists::picked(order, passes);
    let all = first + last;
    drawn_once_is_what_was_drawn(drawn, live);
    picked_has_no_duplicates(order, passes);
    lists::picked_keeps_what_passes(order, passes);
    assert forall|i: int, j: int| 0 <= i < all.len() && 0 <= j < all.len() && i != j implies all[i]
        != all[j] by {
        if i < first.len() && j >= first.len() {
            assert(passes(first[i]));
            assert(last[j - first.len()] == all[j]);
        }
        if j < first.len() && i >= first.len() {
            assert(passes(first[j]));
            assert(last[i - first.len()] == all[i]);
        }
    }
    assert forall|path: Seq<char>| #[trigger] all.to_set().contains(path) <==> live.contains(
        path,
    ) by {
        assert(order.to_set().contains(path) == order.contains(path));
        if live.contains(path) {
            let i = choose|i: int| 0 <= i < order.len() && order[i] == path;
            if last.contains(path) {
                let k = choose|k: int| 0 <= k < last.len() && last[k] == path;
                assert(all[first.len() + k] == path);
            } else {
                assert(passes(order[i]));
                assert(first.contains(path));
                let k = choose|k: int| 0 <= k < first.len() && first[k] == path;
                assert(all[k] == path);
            }
        }
        if all.contains(path) {
            let k = choose|k: int| 0 <= k < all.len() && all[k] == path;
            if k < first.len() {
                assert(order.contains(first[k]));
            } else {
                assert(last[k - first.len()] == path);
                assert(last.contains(path));
                assert(drawn.contains(path) && live.contains(path));
            }
        }
    }
    assert(all.to_set() =~= live);
}

/// Moves the paths drawn this frame to the end of the order, de-duplicated and
/// in draw order. Paths without a texture are ignored, which keeps order and
/// textures one-to-one.
pub fn touch_texture_order<T>(textures: &mut Textures<T>, drawn: &Vec<String>)
    requires
        old(textures).valid(),
    ensures
        final(textures).valid(),
        final(textures).live() == old(textures).live(),
        final(textures).order() == touched(
            old(textures).order(),
            old(textures).live().dom(),
            text::texts(drawn@),
        ),
{
    let ghost live = textures.live().dom();
    let ghost all = text::texts(drawn@);
    let ghost before = textures.order();
    let mut seen = StringHashSet::new();
    let mut last: Vec<String> = Vec::new();
    assert(all.take(0) =~= Seq::empty());
    assert(text::texts(last@) =~= Seq::empty());
    for i in 0..drawn.len()
        invariant
            *textures == *old(textures),
            all == text::texts(drawn@),
            live == textures.live().dom(),
            text::texts(last@) == drawn_once(all.take(i as int), live),
            forall|path: Seq<char>| #[trigger] seen@.contains(path) <==> text::texts(
                last@,
            ).contains(path),
    {
        let ghost so_far = text::texts(last@);
        let path = &drawn[i];
        proof {
            assert(all[i as int] == path@);
            assert(all.take(i + 1).drop_last() =~= all.take(i as int));
            assert(all.take(i + 1).last() == path@);
        }
        if textures.live.contains_key(path.as_str()) && !seen.contains(path.as_str()) {
            let _ = seen.insert(path.clone());
            last.push(path.clone());
            proof {
                assert(text::texts(last@) =~= so_far.push(path@));
                assert forall|other: Seq<char>| #[trigger] seen@.contains(other) <==> text::texts(
                    last@,
                ).contains(other) by {
                    assert(so_far.push(path@).to_set().contains(other) == so_far.push(
                        path@,
                    ).contains(other));
                    pushed_set(so_far, path@);
                    assert(so_far.to_set().contains(other) == so_far.contains(other));
                }
            }
        }
    }
    assert(all.take(drawn@.len() as int) =~= all);
    let ghost moved = drawn_once(all, live);
    let ghost passes = |path: Seq<char>| !moved.contains(path);
    let mut order: VecDeque<String> = VecDeque::new();
    assert(text::texts(order@) =~= lists::picked(before.take(0), passes));
    for i in 0..textures.order.len()
        invariant
            *textures == *old(textures),
            before == text::texts(textures.order@),
            passes == |path: Seq<char>| !moved.contains(path),
            text::texts(last@) == moved,
            forall|path: Seq<char>| #[trigger] seen@.contains(path) <==> moved.contains(path),
            text::texts(order@) == lists::picked(before.take(i as int), passes),
    {
        let ghost so_far = text::texts(order@);
        proof {
            assert(before[i as int] == textures.order@[i as int]@);
            lists::picked_step(before, passes, i as int);
        }
        if !seen.contains(textures.order[i].as_str()) {
            order.push_back(textures.order[i].clone());
            assert(text::texts(order@) =~= so_far.push(before[i as int]));
        }
    }
    assert(before.take(before.len() as int) =~= before);
    let ghost first = text::texts(order@);
    let ghost tail = last@;
    assert(first + text::texts(tail).take(0) =~= first);
    for path in it: last
        invariant
            it.seq() == tail,
            text::texts(order@) == first + text::texts(tail).take(it.index() as int),
    {
        let ghost so_far = text::texts(order@);
        let ghost i = it.index() as int;
        order.push_back(path);
        assert(text::texts(order@) =~= so_far.push(path@));
        assert(text::texts(tail).take(i + 1) =~= text::texts(tail).take(i).push(path@));
        assert(first + text::texts(tail).take(i + 1) =~= (first + text::texts(tail).take(i)).push(
            path@,
        ));
    }
    assert(text::texts(tail).take(tail.len() as int) =~= moved);
    textures.order = order;
    proof {
        touching_loses_nothing(before, live, all);
        assert(textures.order() == touched(before, live, all));
    }
}

/// How many entries go when at most `cap` may stay.
pub open spec fn surplus(count: nat, cap: nat) -> int {
    if count > cap {
        count - cap
    } else {
        0
    }
}

/// Drops least-recently-drawn entries until at most `cap` remain.
pub fn evict_stale_textures<T>(textures: &mut Textures<T>, cap: usize)
    requires
        old(textures).valid(),
    ensures
        final(textures).valid(),
        final(textures).order() == old(textures).order().skip(
            surplus(old(textures).order().len(), cap as nat),
        ),
        final(textures).live() == old(textures).live().restrict(
            final(textures).order().to_set(),
        ),
{
    let ghost before = textures.order();
    let ghost all = textures.live();
    let ghost mut gone: int = 0;
    assert(before.skip(0) =~= before);
    assert(all.restrict(before.to_set()) =~= all);
    while textures.order.len() > cap
        invariant
            0 <= gone <= before.len(),
            textures.valid(),
            textures.order() == before.skip(gone),
            textures.live() == all.restrict(before.skip(gone).to_set()),
            textures.order().len() > cap ==> gone < surplus(before.len(), cap as nat),
            gone <= surplus(before.len(), cap as nat),
        decreases before.len() - gone,
    {
        let ghost order = textures.order();
        let ghost live = textures.live();
        if let Some(oldest) = textures.order.pop_front() {
            textures.live.remove(oldest.as_str());
            proof {
                assert(order[0] == oldest@);
                assert(textures.order() =~= order.skip(1));
                assert(order.skip(1) =~= before.skip(gone + 1));
                assert forall|path: Seq<char>| #[trigger]
                    order.skip(1).to_set().contains(path) <==> order.to_set().remove(
                        oldest@,
                    ).contains(path) by {
                    if order.skip(1).contains(path) {
                        let k = choose|k: int|
                            0 <= k < order.skip(1).len() && order.skip(1)[k] == path;
                        assert(order[k + 1] == path);
                    }
                    if order.contains(path) && path != oldest@ {
                        let k = choose|k: int| 0 <= k < order.len() && order[k] == path;
                        assert(order.skip(1)[k - 1] == path);
                    }
                }
                assert(order.skip(1).to_set() =~= order.to_set().remove(oldest@));
                assert(textures.live().dom() =~= order.skip(1).to_set());
                assert(textures.order().no_duplicates());
                assert(textures.live() =~= all.restrict(before.skip(gone + 1).to_set()));
                gone = gone + 1;
            }
        }
    }
}

/// The most recently drawn entries are the last to go: where everything drawn
/// fits under the cap, drawing and then evicting keeps it all.
pub proof fn what_was_drawn_survives(
    order: Seq<Seq<char>>,
    live: Set<Seq<char>>,
    drawn: Seq<Seq<char>>,
    cap: nat,
    path: Seq<char>,
)
    requires
        drawn_once(drawn, live).len() <= cap,
        drawn.contains(path),
        live.contains(path),
    ensures
        touched(order, live, drawn).skip(
            surplus(touched(order, live, drawn).len(), cap),
        ).contains(path),
{
    let last = drawn_once(drawn, live);
    let all = touched(order, live, drawn);
    drawn_once_is_what_was_drawn(drawn, live);
    let k = choose|k: int| 0 <= k < last.len() && last[k] == path;
    let from = surplus(all.len(), cap);
    let at = all.len() - last.len() + k;
    assert(all[at] == path);
    assert(all.skip(from)[at - from] == path);
}

// ---------------------------------------------------------------------------
// All of it
// ---------------------------------------------------------------------------

/// What becomes of a decode that came back.
#[derive(Clone, Copy, PartialEq, Eq, Structural, Debug)]
pub enum ThumbFate {
    /// It belongs to no listed image any more.
    Discard,
    /// It could not be decoded, and is not to be tried again.
    Failed,
    /// It is to be uploaded and stored.
    Upload,
}

/// The thumbnails of the listed images: requests, textures and failures.
#[verifier::reject_recursive_types(T)]
pub struct Thumbnails<T> {
    pub pool: ThumbPool,
    pub textures: Textures<T>,
    /// Paths whose decode failed. Without this, asking again on every miss would
    /// retry an undecodable file every frame, forever.
    pub failed: StringHashSet,
}

impl<T> Thumbnails<T> {
    pub fn new() -> (thumbs: Thumbnails<T>)
        ensures
            thumbs.textures.valid(),
            thumbs.textures.order() == Seq::<Seq<char>>::empty(),
            thumbs.failed@ == Set::<Seq<char>>::empty(),
            thumbs.pool@ == Set::<Seq<char>>::empty(),
    {
        Thumbnails {
            pool: ThumbPool::new(),
            textures: Textures::new(),
            failed: StringHashSet::new(),
        }
    }

    /// Forgets textures and failures, for a new set of images. Decodes under
    /// way stay under way.
    pub fn clear(&mut self)
        ensures
            final(self).textures.valid(),
            final(self).textures.order() == Seq::<Seq<char>>::empty(),
            final(self).textures.live() == Map::<Seq<char>, T>::empty(),
            final(self).failed@ == Set::<Seq<char>>::empty(),
            final(self).pool == old(self).pool,
    {
        self.textures = Textures::new();
        self.failed = StringHashSet::new();
    }

    /// Asks for a thumbnail that was found missing. True when a decode is to be
    /// queued: not for one under way, and never for one that failed.
    pub fn request(&mut self, path: &str) -> (queue: bool)
        ensures
            final(self).textures == old(self).textures,
            final(self).failed == old(self).failed,
            queue == (!old(self).failed@.contains(path@) && !old(self).pool@.contains(path@)),
            final(self).pool@ == (if old(self).failed@.contains(path@) {
                old(self).pool@
            } else {
                old(self).pool@.insert(path@)
            }),
    {
        if self.failed.contains(path) {
            return false;
        }
        self.pool.request(path)
    }

    /// Decides about a decode that came back for a path that is or is not
    /// listed. A listed one that failed is remembered.
    pub fn finished(&mut self, path: &str, listed: bool, decoded: bool) -> (fate: ThumbFate)
        ensures
            final(self).textures == old(self).textures,
            final(self).pool == old(self).pool,
            fate == (if !listed {
                ThumbFate::Discard
            } else if decoded {
                ThumbFate::Upload
            } else {
                ThumbFate::Failed
            }),
            final(self).failed@ == (if fate == ThumbFate::Failed {
                old(self).failed@.insert(path@)
            } else {
                old(self).failed@
            }),
    {
        if !listed {
            return ThumbFate::Discard;
        }
        if decoded {
            return ThumbFate::Upload;
        }
        let _ = self.failed.insert(path.to_owned());
        ThumbFate::Failed
    }

    /// Stores an uploaded thumbnail. Eviction runs after every one, so a backlog
    /// that arrives at once never exceeds the cap by more than one.
    pub fn store(&mut self, path: String, texture: T)
        requires
            old(self).textures.valid(),
        ensures
            final(self).textures.valid(),
            final(self).textures.order().len() <= MAX_TEXTURES,
            final(self).pool == old(self).pool,
            final(self).failed == old(self).failed,
            ({
                let order = if old(self).textures.live().contains_key(path@) {
                    old(self).textures.order()
                } else {
                    old(self).textures.order().push(path@)
                };
                let kept = order.skip(surplus(order.len(), MAX_TEXTURES as nat));
                &&& final(self).textures.order() == kept
                &&& final(self).textures.live() == old(self).textures.live().insert(
                    path@,
                    texture,
                ).restrict(kept.to_set())
            }),
    {
        self.textures.insert(path, texture);
        evict_stale_textures(&mut self.textures, MAX_TEXTURES);
    }
}

} // verus!
