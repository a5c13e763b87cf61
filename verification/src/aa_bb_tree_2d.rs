//! AABBTree2D, an axis aligned bounding box tree in 2D for fast collision
//! detection.
//!
//! The tree is built once over a fixed collection of items that expose a
//! bounding box, and afterwards answers collision and axis-crossing queries.
//! Every query provably returns the same set of items a brute-force scan of
//! the collection would.

use vstd::prelude::*;
use crate::bounding_box_2d::BoundingBox2D;
use crate::functions::lemma_concat_contains;
use crate::traits::has_bounding_box_2d::HasBoundingBox2D;

verus! {

broadcast use vstd::seq_lib::lemma_seq_contains_after_push;

/// The box enclosing every item of a non-empty collection: the fold of
/// `merge_spec` over the items' own boxes.
pub open spec fn merged_items<HB: HasBoundingBox2D + Copy>(s: Seq<HB>) -> BoundingBox2D
    decreases s.len(),
{
    if s.len() <= 1 {
        s[0].bb_spec()
    } else {
        merged_items(s.drop_last()).merge_spec(s.last().bb_spec())
    }
}

/// Whether every item of a collection carries a well-formed box.
pub open spec fn all_boxes_wf<HB: HasBoundingBox2D + Copy>(s: Seq<HB>) -> bool {
    forall|i: int| 0 <= i < s.len() ==> (#[trigger] s[i]).bb_spec().wf()
}

/// The merged box covers the box of every item, and each of its four bounds
/// is achieved by some item; it is well-formed whenever all item boxes are.
pub proof fn lemma_merged_items_bounds<HB: HasBoundingBox2D + Copy>(s: Seq<HB>)
    requires
        s.len() >= 1,
        all_boxes_wf(s),
    ensures
        forall|x: HB| #[trigger] s.contains(x) ==> merged_items(s).covers(x.bb_spec()),
        exists|x: HB|
            #[trigger] s.contains(x) && x.bb_spec().min_spec().x == merged_items(
                s,
            ).min_spec().x,
        exists|x: HB|
            #[trigger] s.contains(x) && x.bb_spec().min_spec().y == merged_items(
                s,
            ).min_spec().y,
        exists|x: HB|
            #[trigger] s.contains(x) && x.bb_spec().max_spec().x == merged_items(
                s,
            ).max_spec().x,
        exists|x: HB|
            #[trigger] s.contains(x) && x.bb_spec().max_spec().y == merged_items(
                s,
            ).max_spec().y,
        merged_items(s).wf(),
    decreases s.len(),
{
    assert(s[0].bb_spec().wf());
    if s.len() == 1 {
        assert(s.contains(s[0]));
        assert(forall|x: HB| #[trigger] s.contains(x) ==> x == s[0]);
    } else {
        let sub = s.drop_last();
        let last = s.last();
        assert(all_boxes_wf(sub)) by {
            assert(forall|i: int| 0 <= i < sub.len() ==> sub[i] == s[i]);
        }
        lemma_merged_items_bounds(sub);
        crate::bounding_box_2d::lemma_merge_bounds(merged_items(sub), last.bb_spec());
        assert(s.contains(last)) by {
            assert(s[s.len() - 1] == last);
        }
        assert(forall|x: HB| #[trigger] sub.contains(x) ==> s.contains(x)) by {
            assert(forall|i: int|
                0 <= i < sub.len() ==> sub[i] == s[i] && 0 <= i < s.len());
        }
        assert(forall|x: HB| #[trigger] s.contains(x) ==> sub.contains(x) || x == last) by {
            assert(forall|i: int|
                0 <= i < s.len() - 1 ==> s[i] == sub[i]);
        }
        assert(s[s.len() - 1].bb_spec().wf());
    }
}

/// When a collection is split into two sub-collections that together hold
/// exactly its items, the merged box of the whole equals the merge of the
/// two sub-collections' merged boxes.
pub proof fn lemma_merged_items_split<HB: HasBoundingBox2D + Copy>(
    all: Seq<HB>,
    a: Seq<HB>,
    b: Seq<HB>,
)
    requires
        all.len() >= 1,
        a.len() >= 1,
        b.len() >= 1,
        all_boxes_wf(all),
        forall|x: HB| #[trigger] a.contains(x) ==> all.contains(x),
        forall|x: HB| #[trigger] b.contains(x) ==> all.contains(x),
        forall|x: HB| #[trigger] all.contains(x) ==> a.contains(x) || b.contains(x),
    ensures
        merged_items(all) == merged_items(a).merge_spec(merged_items(b)),
{
    assert(all_boxes_wf(a)) by {
        assert(forall|i: int| 0 <= i < a.len() ==> #[trigger] a[i].bb_spec().wf()) by {
            assert(forall|i: int| 0 <= i < a.len() ==> a.contains(a[i]));
            assert(forall|x: HB| #[trigger] all.contains(x) ==> x.bb_spec().wf()) by {
                assert(forall|i: int| 0 <= i < all.len() ==> (#[trigger] all[i]).bb_spec().wf());
            }
        }
    }
    assert(all_boxes_wf(b)) by {
        assert(forall|i: int| 0 <= i < b.len() ==> #[trigger] b[i].bb_spec().wf()) by {
            assert(forall|i: int| 0 <= i < b.len() ==> b.contains(b[i]));
            assert(forall|x: HB| #[trigger] all.contains(x) ==> x.bb_spec().wf()) by {
                assert(forall|i: int| 0 <= i < all.len() ==> (#[trigger] all[i]).bb_spec().wf());
            }
        }
    }
    lemma_merged_items_bounds(all);
    lemma_merged_items_bounds(a);
    lemma_merged_items_bounds(b);
    let m = merged_items(all);
    let ma = merged_items(a);
    let mb = merged_items(b);
    let mm = ma.merge_spec(mb);
    crate::bounding_box_2d::lemma_merge_bounds(ma, mb);
    assert(mm.min_spec().x == m.min_spec().x);
    assert(mm.min_spec().y == m.min_spec().y);
    assert(mm.max_spec().x == m.max_spec().x);
    assert(mm.max_spec().y == m.max_spec().y);
    crate::bounding_box_2d::lemma_box_fields_determine(m, mm);
}

/// AABBTree2D, an axis aligned bounding box tree in 2D for fast collision
/// detection.
pub enum AABBTree2D<HB: HasBoundingBox2D + Copy> {
    Empty,
    Leaf(AABBTree2DLeaf<HB>),
    Branch(AABBTree2DBranch<HB>),
}

/// A terminal node: a bucket of items together with their merged box.
pub struct AABBTree2DLeaf<HB: HasBoundingBox2D + Copy> {
    data: Vec<HB>,
    bb: BoundingBox2D,
}

/// A subdividing node: two owned subtrees together with the box enclosing
/// both.
pub struct AABBTree2DBranch<HB: HasBoundingBox2D + Copy> {
    left: Box<AABBTree2D<HB>>,
    right: Box<AABBTree2D<HB>>,
    bb: BoundingBox2D,
}

impl<HB: HasBoundingBox2D + Copy> AABBTree2DLeaf<HB> {
    /// The items stored in this leaf.
    pub closed spec fn items(self) -> Seq<HB> {
        self.data@
    }

    /// A leaf holds at least one item, all item boxes are well-formed, and
    /// the stored box is exactly the merge of the item boxes.
    pub closed spec fn wf(self) -> bool {
        &&& self.data@.len() >= 1
        &&& all_boxes_wf(self.data@)
        &&& self.bb == merged_items(self.data@)
        &&& self.bb.wf()
    }

    /// The stored bounding box.
    pub closed spec fn bb_spec(self) -> BoundingBox2D {
        self.bb
    }
}

impl<HB: HasBoundingBox2D + Copy> AABBTree2DBranch<HB> {
    /// The items stored below this branch, left subtree first.
    pub closed spec fn items(self) -> Seq<HB>
        decreases self,
    {
        self.left.items() + self.right.items()
    }

    /// Both subtrees are non-empty and well-formed, and the stored box is
    /// exactly the merge of their boxes.
    pub closed spec fn wf(self) -> bool
        decreases self,
    {
        &&& !(*self.left is Empty)
        &&& !(*self.right is Empty)
        &&& self.left.wf()
        &&& self.right.wf()
        &&& self.bb == self.left.box_spec().merge_spec(self.right.box_spec())
        &&& self.bb.wf()
    }

    /// The stored bounding box.
    pub closed spec fn bb_spec(self) -> BoundingBox2D {
        self.bb
    }
}

impl<HB: HasBoundingBox2D + Copy> AABBTree2D<HB> {
    /// Every item stored in this tree, in traversal order. An item whose box
    /// straddled a split line during the build appears once per leaf that
    /// holds it.
    pub open spec fn items(self) -> Seq<HB>
        decreases self,
    {
        match self {
            AABBTree2D::Empty => Seq::empty(),
            AABBTree2D::Leaf(leaf) => leaf.items(),
            AABBTree2D::Branch(branch) => branch.items(),
        }
    }

    /// The bounding box stored at the root of a non-empty tree.
    pub open spec fn box_spec(self) -> BoundingBox2D {
        match self {
            AABBTree2D::Empty => vstd::pervasive::arbitrary(),
            AABBTree2D::Leaf(leaf) => leaf.bb_spec(),
            AABBTree2D::Branch(branch) => branch.bb_spec(),
        }
    }

    /// Well-formedness of the whole tree: every leaf box is the merge of its
    /// items' boxes and every branch box is the merge of its children's.
    pub open spec fn wf(self) -> bool
        decreases self,
    {
        match self {
            AABBTree2D::Empty => true,
            AABBTree2D::Leaf(leaf) => leaf.wf(),
            AABBTree2D::Branch(branch) => branch.wf(),
        }
    }
}

/// Whether an item belongs to the left partition of a split: its box starts
/// before the split threshold on the split axis.
pub open spec fn is_left_spec(compx: bool, bb: BoundingBox2D, t: int) -> bool {
    if compx {
        bb.min_spec().x < t
    } else {
        bb.min_spec().y < t
    }
}

/// Whether an item belongs to the right partition of a split: its box ends
/// at or after the split threshold on the split axis. An item can belong to
/// both partitions when its box straddles the split line.
pub open spec fn is_right_spec(compx: bool, bb: BoundingBox2D, t: int) -> bool {
    if compx {
        bb.max_spec().x >= t
    } else {
        bb.max_spec().y >= t
    }
}

/// The split threshold of a box on the chosen axis: its center, rounded up,
/// so that it lies strictly above the minimum and at most at the maximum.
pub open spec fn split_of(bb: BoundingBox2D, compx: bool) -> int {
    if compx {
        bb.min_spec().x + (bb.max_spec().x - bb.min_spec().x + 1) / 2
    } else {
        bb.min_spec().y + (bb.max_spec().y - bb.min_spec().y + 1) / 2
    }
}

impl<HB: HasBoundingBox2D + Copy> AABBTree2D<HB> {
    /// Builds a tree over the given items.
    ///
    /// Subdivision stops at `maxdepth`, below `allowed_bucket_size` items,
    /// and on splits that make no progress; the build never fails, and the
    /// tree stores exactly the given items.
    pub fn new(data: Vec<HB>, maxdepth: usize, allowed_bucket_size: usize) -> (r: Self)
        requires
            all_boxes_wf(data@),
        ensures
            r.wf(),
            r.items().to_set() == data@.to_set(),
            r is Empty <==> data@.len() == 0,
            data@.len() >= 1 ==> r.box_spec() == merged_items(data@),
            maxdepth == 0 ==> !(r is Branch),
    {
        Self::new_rec(data, maxdepth, allowed_bucket_size, 0)
    }

    fn new_rec(data: Vec<HB>, maxdepth: usize, allowed_bucket_size: usize, depth: usize) -> (r:
        Self)
        requires
            all_boxes_wf(data@),
            depth <= maxdepth,
        ensures
            r.wf(),
            r.items().to_set() == data@.to_set(),
            r is Empty <==> data@.len() == 0,
            data@.len() >= 1 ==> r.box_spec() == merged_items(data@),
            depth == maxdepth ==> !(r is Branch),
        decreases maxdepth - depth,
    {
        if data.len() == 0 {
            proof {
                assert(Seq::<HB>::empty().to_set() =~= data@.to_set());
            }
            AABBTree2D::Empty
        } else if data.len() == 1 || depth >= maxdepth || data.len() <= allowed_bucket_size {
            let bb = Self::bb_of(&data);
            AABBTree2D::Leaf(AABBTree2DLeaf { data, bb })
        } else {
            let compx = depth % 2 == 0;
            let bb = Self::bb_of(&data);
            let t = Self::split_threshold(&bb, compx);
            let ghost s = data@;
            let mut dleft: Vec<HB> = Vec::new();
            let mut dright: Vec<HB> = Vec::new();
            let mut i: usize = 0;
            while i < data.len()
                invariant
                    0 <= i <= s.len(),
                    s == data@,
                    all_boxes_wf(s),
                    forall|x: HB| #[trigger] dleft@.contains(x) ==> s.contains(x) && is_left_spec(
                        compx,
                        x.bb_spec(),
                        t as int,
                    ),
                    forall|x: HB| #[trigger] dright@.contains(x) ==> s.contains(x)
                        && is_right_spec(compx, x.bb_spec(), t as int),
                    forall|j: int|
                        0 <= j < i && is_left_spec(compx, (#[trigger] s[j]).bb_spec(), t as int)
                            ==> dleft@.contains(s[j]),
                    forall|j: int|
                        0 <= j < i && is_right_spec(compx, (#[trigger] s[j]).bb_spec(), t as int)
                            ==> dright@.contains(s[j]),
                    dleft@.len() <= i,
                    dright@.len() <= i,
                decreases s.len() - i,
            {
                proof {
                    assert(s.contains(s[i as int])) by {
                        assert(s[i as int] == s[i as int]);
                    }
                }
                let item = data[i];
                let ghost old_dl = dleft@;
                let ghost old_dr = dright@;
                let itembb = item.bounding_box();
                let goes_left = Self::is_left_of(compx, &itembb, t);
                let goes_right = Self::is_right_of(compx, &itembb, t);
                if goes_left {
                    dleft.push(item);
                }
                if goes_right {
                    dright.push(item);
                }
                proof {
                    assert forall|x: HB| #[trigger] dleft@.contains(x) implies s.contains(x)
                        && is_left_spec(compx, x.bb_spec(), t as int) by {
                        if goes_left {
                            assert(dleft@ == old_dl.push(item));
                            assert(old_dl.push(item).contains(x));
                            assert(x == item || old_dl.contains(x));
                        }
                    }
                    assert forall|x: HB| #[trigger] dright@.contains(x) implies s.contains(x)
                        && is_right_spec(compx, x.bb_spec(), t as int) by {
                        if goes_right {
                            assert(dright@ == old_dr.push(item));
                            assert(old_dr.push(item).contains(x));
                            assert(x == item || old_dr.contains(x));
                        }
                    }
                    assert forall|j: int|
                        0 <= j < i + 1 && is_left_spec(
                            compx,
                            (#[trigger] s[j]).bb_spec(),
                            t as int,
                        ) implies dleft@.contains(s[j]) by {
                        if j < i {
                            assert(old_dl.contains(s[j]));
                            if goes_left {
                                assert(old_dl.push(item).contains(s[j]));
                            }
                        } else {
                            assert(s[j] == item);
                            assert(goes_left);
                            assert(old_dl.push(item).contains(item));
                        }
                    }
                    assert forall|j: int|
                        0 <= j < i + 1 && is_right_spec(
                            compx,
                            (#[trigger] s[j]).bb_spec(),
                            t as int,
                        ) implies dright@.contains(s[j]) by {
                        if j < i {
                            assert(old_dr.contains(s[j]));
                            if goes_right {
                                assert(old_dr.push(item).contains(s[j]));
                            }
                        } else {
                            assert(s[j] == item);
                            assert(goes_right);
                            assert(old_dr.push(item).contains(item));
                        }
                    }
                }
                i = i + 1;
            }
            proof {
                lemma_merged_items_bounds(s);
                // every item lands in at least one partition: one whose box
                // starts at or after the threshold ends strictly after it
                assert(forall|x: HB| #[trigger] s.contains(x) ==> dleft@.contains(x)
                    || dright@.contains(x)) by {
                    assert forall|x: HB| #[trigger] s.contains(x) implies dleft@.contains(x)
                        || dright@.contains(x) by {
                        let j = choose|j: int| 0 <= j < s.len() && s[j] == x;
                        assert(s[j].bb_spec().wf());
                        assert(is_left_spec(compx, s[j].bb_spec(), t as int) || is_right_spec(
                            compx,
                            s[j].bb_spec(),
                            t as int,
                        ));
                    }
                }
                // the item achieving the minimum on the split axis is left of
                // the threshold, and the one achieving the maximum is right
                if compx {
                    let xm = choose|x: HB|
                        #[trigger] s.contains(x) && x.bb_spec().min_spec().x == merged_items(
                            s,
                        ).min_spec().x;
                    assert(dleft@.contains(xm));
                    let xq = choose|x: HB|
                        #[trigger] s.contains(x) && x.bb_spec().max_spec().x == merged_items(
                            s,
                        ).max_spec().x;
                    assert(dright@.contains(xq));
                } else {
                    let xm = choose|x: HB|
                        #[trigger] s.contains(x) && x.bb_spec().min_spec().y == merged_items(
                            s,
                        ).min_spec().y;
                    assert(dleft@.contains(xm));
                    let xq = choose|x: HB|
                        #[trigger] s.contains(x) && x.bb_spec().max_spec().y == merged_items(
                            s,
                        ).max_spec().y;
                    assert(dright@.contains(xq));
                }
                assert(dleft@.len() >= 1);
                assert(dright@.len() >= 1);
                assert(all_boxes_wf(dleft@)) by {
                    assert forall|k: int|
                        0 <= k < dleft@.len() implies (#[trigger] dleft@[k]).bb_spec().wf() by {
                        assert(dleft@.contains(dleft@[k]));
                        let j = choose|j: int| 0 <= j < s.len() && s[j] == dleft@[k];
                        assert(s[j].bb_spec().wf());
                    }
                }
                assert(all_boxes_wf(dright@)) by {
                    assert forall|k: int|
                        0 <= k < dright@.len() implies (#[trigger] dright@[k]).bb_spec().wf() by {
                        assert(dright@.contains(dright@[k]));
                        let j = choose|j: int| 0 <= j < s.len() && s[j] == dright@[k];
                        assert(s[j].bb_spec().wf());
                    }
                }
            }
            if dleft.len() == dright.len() && dleft.len() == data.len() {
                // splitting made no progress: every item straddles the split
                // line, so subdividing further would never terminate
                AABBTree2D::Leaf(AABBTree2DLeaf { data, bb })
            } else {
                let ghost sl = dleft@;
                let ghost sr = dright@;
                let left = Box::new(Self::new_rec(dleft, maxdepth, allowed_bucket_size, depth + 1));
                let right = Box::new(
                    Self::new_rec(dright, maxdepth, allowed_bucket_size, depth + 1),
                );
                proof {
                    lemma_merged_items_split(s, sl, sr);
                    let li = left.items();
                    let ri = right.items();
                    assert forall|x: HB| #[trigger] (li + ri).contains(x) implies s.contains(
                        x,
                    ) by {
                        let j = choose|j: int| 0 <= j < (li + ri).len() && (li + ri)[j] == x;
                        if j < li.len() {
                            assert((li + ri)[j] == li[j]);
                            assert(li.contains(x));
                            assert(li.to_set().contains(x));
                            assert(sl.to_set().contains(x));
                            assert(sl.contains(x));
                        } else {
                            assert((li + ri)[j] == ri[j - li.len()]);
                            assert(ri.contains(x));
                            assert(ri.to_set().contains(x));
                            assert(sr.to_set().contains(x));
                            assert(sr.contains(x));
                        }
                    }
                    assert forall|x: HB| #[trigger] s.contains(x) implies (li + ri).contains(
                        x,
                    ) by {
                        if sl.contains(x) {
                            assert(sl.to_set().contains(x));
                            assert(li.to_set().contains(x));
                            assert(li.contains(x));
                            let j = choose|j: int| 0 <= j < li.len() && li[j] == x;
                            assert((li + ri)[j] == x);
                        } else {
                            assert(sr.contains(x));
                            assert(sr.to_set().contains(x));
                            assert(ri.to_set().contains(x));
                            assert(ri.contains(x));
                            let j = choose|j: int| 0 <= j < ri.len() && ri[j] == x;
                            assert((li + ri)[li.len() + j] == x);
                        }
                    }
                    assert((li + ri).to_set() =~= s.to_set());
                }
                AABBTree2D::Branch(AABBTree2DBranch { left, right, bb })
            }
        }
    }

    /// Computes the merged bounding box of a non-empty item collection.
    fn bb_of(data: &Vec<HB>) -> (r: BoundingBox2D)
        requires
            data@.len() >= 1,
            all_boxes_wf(data@),
        ensures
            r == merged_items(data@),
            r.wf(),
    {
        let mut result = data[0].bounding_box();
        proof {
            assert(data@.take(1)[0] == data@[0]);
            assert(data@[0].bb_spec().wf());
        }
        let mut i: usize = 1;
        while i < data.len()
            invariant
                1 <= i <= data@.len(),
                all_boxes_wf(data@),
                result == merged_items(data@.take(i as int)),
            decreases data@.len() - i,
        {
            proof {
                assert(data@.take(i + 1).drop_last() =~= data@.take(i as int));
                assert(data@.take(i + 1).last() == data@[i as int]);
            }
            result.consume(data[i].bounding_box());
            i = i + 1;
        }
        proof {
            assert(data@.take(data@.len() as int) =~= data@);
            lemma_merged_items_bounds(data@);
        }
        result
    }

    /// Computes the split threshold: the box center on the chosen axis,
    /// rounded up.
    fn split_threshold(bb: &BoundingBox2D, compx: bool) -> (t: i64)
        requires
            bb.wf(),
        ensures
            t == split_of(*bb, compx),
            compx ==> bb.min_spec().x < t <= bb.max_spec().x,
            !compx ==> bb.min_spec().y < t <= bb.max_spec().y,
    {
        let minp = bb.min_p();
        let maxp = bb.max_p();
        if compx {
            minp.x + (maxp.x - minp.x + 1) / 2
        } else {
            minp.y + (maxp.y - minp.y + 1) / 2
        }
    }

    /// Tests whether an item's box belongs to the left partition.
    fn is_left_of(compx: bool, bb: &BoundingBox2D, t: i64) -> (r: bool)
        ensures
            r == is_left_spec(compx, *bb, t as int),
    {
        if compx {
            bb.min_p().x() < t
        } else {
            bb.min_p().y() < t
        }
    }

    /// Tests whether an item's box belongs to the right partition.
    fn is_right_of(compx: bool, bb: &BoundingBox2D, t: i64) -> (r: bool)
        ensures
            r == is_right_spec(compx, *bb, t as int),
    {
        if compx {
            bb.max_p().x() >= t
        } else {
            bb.max_p().y() >= t
        }
    }
}

impl<HB: HasBoundingBox2D + Copy> AABBTree2DLeaf<HB> {
    /// Creates a leaf over the given items and their merged bounding box.
    pub fn new(data: Vec<HB>, bb: BoundingBox2D) -> (r: Self)
        requires
            data@.len() >= 1,
            all_boxes_wf(data@),
            bb == merged_items(data@),
            bb.wf(),
        ensures
            r.wf(),
            r.items() == data@,
            r.bb_spec() == bb,
    {
        AABBTree2DLeaf { data, bb }
    }

    /// Returns every item of this leaf whose bounding box collides with the
    /// query box, after a pre-check against the leaf's own box.
    pub fn bb_colliding(&self, bb: &BoundingBox2D) -> (r: Vec<HB>)
        requires
            self.wf(),
            bb.wf(),
        ensures
            forall|k: int|
                0 <= k < r@.len() ==> self.items().contains(#[trigger] r@[k])
                    && r@[k].bb_spec().collides_spec(*bb),
            forall|j: int|
                0 <= j < self.items().len() && (#[trigger] self.items()[j]).bb_spec().collides_spec(
                    *bb,
                ) ==> r@.contains(self.items()[j]),
    {
        let mut result: Vec<HB> = Vec::new();
        if !self.bb.collides_with(bb) {
            proof {
                lemma_merged_items_bounds(self.data@);
                assert forall|j: int|
                    0 <= j < self.items().len() implies !(
                #[trigger] self.items()[j]).bb_spec().collides_spec(*bb) by {
                    assert(self.data@.contains(self.data@[j]));
                    crate::bounding_box_2d::lemma_covers_prunes(
                        self.bb,
                        self.data@[j].bb_spec(),
                        *bb,
                    );
                }
            }
            return result;
        }
        let ghost s = self.data@;
        let mut i: usize = 0;
        while i < self.data.len()
            invariant
                0 <= i <= s.len(),
                s == self.data@,
                all_boxes_wf(s),
                bb.wf(),
                forall|k: int|
                    0 <= k < result@.len() ==> s.contains(#[trigger] result@[k])
                        && result@[k].bb_spec().collides_spec(*bb),
                forall|j: int|
                    0 <= j < i && (#[trigger] s[j]).bb_spec().collides_spec(*bb)
                        ==> result@.contains(s[j]),
            decreases s.len() - i,
        {
            proof {
                assert(s.contains(s[i as int]));
            }
            let item = self.data[i];
            if item.bounding_box().collides_with(bb) {
                result.push(item);
            }
            i = i + 1;
        }
        result
    }

    /// Returns every item of this leaf whose bounding box crosses the given
    /// x value, after a pre-check against the leaf's own box.
    pub fn bb_crossing_x_value(&self, x: i64) -> (r: Vec<HB>)
        requires
            self.wf(),
        ensures
            forall|k: int|
                0 <= k < r@.len() ==> self.items().contains(#[trigger] r@[k])
                    && r@[k].bb_spec().crossing_x_spec(x as int),
            forall|j: int|
                0 <= j < self.items().len() && (#[trigger] self.items()[j]).bb_spec().crossing_x_spec(
                    x as int,
                ) ==> r@.contains(self.items()[j]),
    {
        let mut result: Vec<HB> = Vec::new();
        if !self.bb.crossing_x_value(x) {
            proof {
                lemma_merged_items_bounds(self.data@);
                assert forall|j: int|
                    0 <= j < self.items().len() implies !(
                #[trigger] self.items()[j]).bb_spec().crossing_x_spec(x as int) by {
                    assert(self.data@.contains(self.data@[j]));
                    crate::bounding_box_2d::lemma_covers_prunes_crossing(
                        self.bb,
                        self.data@[j].bb_spec(),
                        x as int,
                    );
                }
            }
            return result;
        }
        let ghost s = self.data@;
        let mut i: usize = 0;
        while i < self.data.len()
            invariant
                0 <= i <= s.len(),
                s == self.data@,
                all_boxes_wf(s),
                forall|k: int|
                    0 <= k < result@.len() ==> s.contains(#[trigger] result@[k])
                        && result@[k].bb_spec().crossing_x_spec(x as int),
                forall|j: int|
                    0 <= j < i && (#[trigger] s[j]).bb_spec().crossing_x_spec(x as int)
                        ==> result@.contains(s[j]),
            decreases s.len() - i,
        {
            proof {
                assert(s.contains(s[i as int]));
            }
            let item = self.data[i];
            if item.bounding_box().crossing_x_value(x) {
                result.push(item);
            }
            i = i + 1;
        }
        result
    }

    /// Returns every item of this leaf whose bounding box crosses the given
    /// y value, after a pre-check against the leaf's own box.
    pub fn bb_crossing_y_value(&self, y: i64) -> (r: Vec<HB>)
        requires
            self.wf(),
        ensures
            forall|k: int|
                0 <= k < r@.len() ==> self.items().contains(#[trigger] r@[k])
                    && r@[k].bb_spec().crossing_y_spec(y as int),
            forall|j: int|
                0 <= j < self.items().len() && (#[trigger] self.items()[j]).bb_spec().crossing_y_spec(
                    y as int,
                ) ==> r@.contains(self.items()[j]),
    {
        let mut result: Vec<HB> = Vec::new();
        if !self.bb.crossing_y_value(y) {
            proof {
                lemma_merged_items_bounds(self.data@);
                assert forall|j: int|
                    0 <= j < self.items().len() implies !(
                #[trigger] self.items()[j]).bb_spec().crossing_y_spec(y as int) by {
                    assert(self.data@.contains(self.data@[j]));
                    crate::bounding_box_2d::lemma_covers_prunes_crossing(
                        self.bb,
                        self.data@[j].bb_spec(),
                        y as int,
                    );
                }
            }
            return result;
        }
        let ghost s = self.data@;
        let mut i: usize = 0;
        while i < self.data.len()
            invariant
                0 <= i <= s.len(),
                s == self.data@,
                all_boxes_wf(s),
                forall|k: int|
                    0 <= k < result@.len() ==> s.contains(#[trigger] result@[k])
                        && result@[k].bb_spec().crossing_y_spec(y as int),
                forall|j: int|
                    0 <= j < i && (#[trigger] s[j]).bb_spec().crossing_y_spec(y as int)
                        ==> result@.contains(s[j]),
            decreases s.len() - i,
        {
            proof {
                assert(s.contains(s[i as int]));
            }
            let item = self.data[i];
            if item.bounding_box().crossing_y_value(y) {
                result.push(item);
            }
            i = i + 1;
        }
        result
    }
}

impl<HB: HasBoundingBox2D + Copy> AABBTree2DBranch<HB> {
    /// Creates a branch over two non-empty subtrees and the box enclosing
    /// both.
    pub fn new(left: Box<AABBTree2D<HB>>, right: Box<AABBTree2D<HB>>, bb: BoundingBox2D) -> (r:
        Self)
        requires
            !(*left is Empty),
            !(*right is Empty),
            left.wf(),
            right.wf(),
            bb == left.box_spec().merge_spec(right.box_spec()),
            bb.wf(),
        ensures
            r.wf(),
            r.items() == left.items() + right.items(),
            r.bb_spec() == bb,
    {
        AABBTree2DBranch { left, right, bb }
    }

    /// Every item below a well-formed branch has a box covered by the
    /// branch's own box.
    proof fn lemma_branch_covers(self)
        requires
            self.wf(),
        ensures
            forall|x: HB| #[trigger] self.items().contains(x) ==> self.bb_spec().covers(
                x.bb_spec(),
            ),
            all_boxes_wf(self.items()),
    {
        lemma_tree_covers(*self.left);
        lemma_tree_covers(*self.right);
        let li = self.left.items();
        let ri = self.right.items();
        lemma_concat_contains(li, ri);
        crate::bounding_box_2d::lemma_merge_covers(
            self.left.box_spec(),
            self.right.box_spec(),
        );
        assert forall|x: HB| #[trigger] self.items().contains(x) implies self.bb_spec().covers(
            x.bb_spec(),
        ) by {
            assert(li.contains(x) || ri.contains(x));
        }
        assert forall|k: int|
            0 <= k < self.items().len() implies (#[trigger] self.items()[k]).bb_spec().wf() by {
            assert(self.items().contains(self.items()[k]));
            assert(li.contains(self.items()[k]) || ri.contains(self.items()[k]));
            if li.contains(self.items()[k]) {
                let j = choose|j: int| 0 <= j < li.len() && li[j] == self.items()[k];
                assert(li[j].bb_spec().wf());
            } else {
                let j = choose|j: int| 0 <= j < ri.len() && ri[j] == self.items()[k];
                assert(ri[j].bb_spec().wf());
            }
        }
    }

    /// Returns every item below this branch whose bounding box collides with
    /// the query box, pruning by the branch's own box.
    pub fn bb_colliding(&self, bb: &BoundingBox2D) -> (r: Vec<HB>)
        requires
            self.wf(),
            bb.wf(),
        ensures
            forall|k: int|
                0 <= k < r@.len() ==> self.items().contains(#[trigger] r@[k])
                    && r@[k].bb_spec().collides_spec(*bb),
            forall|j: int|
                0 <= j < self.items().len() && (#[trigger] self.items()[j]).bb_spec().collides_spec(
                    *bb,
                ) ==> r@.contains(self.items()[j]),
        decreases self,
    {
        if !self.bb.collides_with(bb) {
            proof {
                self.lemma_branch_covers();
                assert forall|j: int|
                    0 <= j < self.items().len() implies !(
                #[trigger] self.items()[j]).bb_spec().collides_spec(*bb) by {
                    assert(self.items().contains(self.items()[j]));
                    crate::bounding_box_2d::lemma_covers_prunes(
                        self.bb,
                        self.items()[j].bb_spec(),
                        *bb,
                    );
                }
            }
            return Vec::new();
        }
        let mut result = self.left.bb_colliding(bb);
        let mut from_right = self.right.bb_colliding(bb);
        let ghost rl = result@;
        let ghost rr = from_right@;
        result.append(&mut from_right);
        proof {
            let li = self.left.items();
            let ri = self.right.items();
            lemma_concat_contains(li, ri);
            lemma_concat_contains(rl, rr);
            assert forall|k: int|
                0 <= k < result@.len() implies self.items().contains(#[trigger] result@[k])
                    && result@[k].bb_spec().collides_spec(*bb) by {
                if k < rl.len() {
                    assert(result@[k] == rl[k]);
                } else {
                    assert(result@[k] == rr[k - rl.len()]);
                }
            }
            assert forall|j: int|
                0 <= j < self.items().len() && (#[trigger] self.items()[j]).bb_spec().collides_spec(
                    *bb,
                ) implies result@.contains(self.items()[j]) by {
                if j < li.len() {
                    assert(self.items()[j] == li[j]);
                } else {
                    assert(self.items()[j] == ri[j - li.len()]);
                }
            }
        }
        result
    }

    /// Returns every item below this branch whose bounding box crosses the
    /// given x value, pruning by the branch's own box.
    pub fn bb_crossing_x_value(&self, x: i64) -> (r: Vec<HB>)
        requires
            self.wf(),
        ensures
            forall|k: int|
                0 <= k < r@.len() ==> self.items().contains(#[trigger] r@[k])
                    && r@[k].bb_spec().crossing_x_spec(x as int),
            forall|j: int|
                0 <= j < self.items().len() && (#[trigger] self.items()[j]).bb_spec().crossing_x_spec(
                    x as int,
                ) ==> r@.contains(self.items()[j]),
        decreases self,
    {
        if !self.bb.crossing_x_value(x) {
            proof {
                self.lemma_branch_covers();
                assert forall|j: int|
                    0 <= j < self.items().len() implies !(
                #[trigger] self.items()[j]).bb_spec().crossing_x_spec(x as int) by {
                    assert(self.items().contains(self.items()[j]));
                    crate::bounding_box_2d::lemma_covers_prunes_crossing(
                        self.bb,
                        self.items()[j].bb_spec(),
                        x as int,
                    );
                }
            }
            return Vec::new();
        }
        let mut result = self.left.bb_crossing_x_value(x);
        let mut from_right = self.right.bb_crossing_x_value(x);
        let ghost rl = result@;
        let ghost rr = from_right@;
        result.append(&mut from_right);
        proof {
            let li = self.left.items();
            let ri = self.right.items();
            lemma_concat_contains(li, ri);
            lemma_concat_contains(rl, rr);
            assert forall|k: int|
                0 <= k < result@.len() implies self.items().contains(#[trigger] result@[k])
                    && result@[k].bb_spec().crossing_x_spec(x as int) by {
                if k < rl.len() {
                    assert(result@[k] == rl[k]);
                } else {
                    assert(result@[k] == rr[k - rl.len()]);
                }
            }
            assert forall|j: int|
                0 <= j < self.items().len() && (#[trigger] self.items()[j]).bb_spec().crossing_x_spec(
                    x as int,
                ) implies result@.contains(self.items()[j]) by {
                if j < li.len() {
                    assert(self.items()[j] == li[j]);
                } else {
                    assert(self.items()[j] == ri[j - li.len()]);
                }
            }
        }
        result
    }

    /// Returns every item below this branch whose bounding box crosses the
    /// given y value, pruning by the branch's own box.
    pub fn bb_crossing_y_value(&self, y: i64) -> (r: Vec<HB>)
        requires
            self.wf(),
        ensures
            forall|k: int|
                0 <= k < r@.len() ==> self.items().contains(#[trigger] r@[k])
                    && r@[k].bb_spec().crossing_y_spec(y as int),
            forall|j: int|
                0 <= j < self.items().len() && (#[trigger] self.items()[j]).bb_spec().crossing_y_spec(
                    y as int,
                ) ==> r@.contains(self.items()[j]),
        decreases self,
    {
        if !self.bb.crossing_y_value(y) {
            proof {
                self.lemma_branch_covers();
                assert forall|j: int|
                    0 <= j < self.items().len() implies !(
                #[trigger] self.items()[j]).bb_spec().crossing_y_spec(y as int) by {
                    assert(self.items().contains(self.items()[j]));
                    crate::bounding_box_2d::lemma_covers_prunes_crossing(
                        self.bb,
                        self.items()[j].bb_spec(),
                        y as int,
                    );
                }
            }
            return Vec::new();
        }
        let mut result = self.left.bb_crossing_y_value(y);
        let mut from_right = self.right.bb_crossing_y_value(y);
        let ghost rl = result@;
        let ghost rr = from_right@;
        result.append(&mut from_right);
        proof {
            let li = self.left.items();
            let ri = self.right.items();
            lemma_concat_contains(li, ri);
            lemma_concat_contains(rl, rr);
            assert forall|k: int|
                0 <= k < result@.len() implies self.items().contains(#[trigger] result@[k])
                    && result@[k].bb_spec().crossing_y_spec(y as int) by {
                if k < rl.len() {
                    assert(result@[k] == rl[k]);
                } else {
                    assert(result@[k] == rr[k - rl.len()]);
                }
            }
            assert forall|j: int|
                0 <= j < self.items().len() && (#[trigger] self.items()[j]).bb_spec().crossing_y_spec(
                    y as int,
                ) implies result@.contains(self.items()[j]) by {
                if j < li.len() {
                    assert(self.items()[j] == li[j]);
                } else {
                    assert(self.items()[j] == ri[j - li.len()]);
                }
            }
        }
        result
    }
}

impl<HB: HasBoundingBox2D + Copy> AABBTree2D<HB> {
    /// Returns every stored item whose bounding box collides with the query
    /// box: exactly the items a brute-force scan would report.
    pub fn bb_colliding(&self, bb: &BoundingBox2D) -> (r: Vec<HB>)
        requires
            self.wf(),
            bb.wf(),
        ensures
            forall|k: int|
                0 <= k < r@.len() ==> self.items().contains(#[trigger] r@[k])
                    && r@[k].bb_spec().collides_spec(*bb),
            forall|j: int|
                0 <= j < self.items().len() && (#[trigger] self.items()[j]).bb_spec().collides_spec(
                    *bb,
                ) ==> r@.contains(self.items()[j]),
        decreases self,
    {
        match self {
            AABBTree2D::Empty => Vec::new(),
            AABBTree2D::Leaf(leaf) => {
                let r = leaf.bb_colliding(bb);
                proof {
                    assert(self.items() == leaf.items());
                }
                r
            },
            AABBTree2D::Branch(branch) => {
                let r = branch.bb_colliding(bb);
                proof {
                    assert(self.items() == branch.items());
                }
                r
            },
        }
    }

    /// Returns every stored item whose bounding box crosses the given x
    /// value: exactly the items a brute-force scan would report.
    pub fn bb_crossing_x_value(&self, x: i64) -> (r: Vec<HB>)
        requires
            self.wf(),
        ensures
            forall|k: int|
                0 <= k < r@.len() ==> self.items().contains(#[trigger] r@[k])
                    && r@[k].bb_spec().crossing_x_spec(x as int),
            forall|j: int|
                0 <= j < self.items().len() && (#[trigger] self.items()[j]).bb_spec().crossing_x_spec(
                    x as int,
                ) ==> r@.contains(self.items()[j]),
        decreases self,
    {
        match self {
            AABBTree2D::Empty => Vec::new(),
            AABBTree2D::Leaf(leaf) => {
                let r = leaf.bb_crossing_x_value(x);
                proof {
                    assert(self.items() == leaf.items());
                }
                r
            },
            AABBTree2D::Branch(branch) => {
                let r = branch.bb_crossing_x_value(x);
                proof {
                    assert(self.items() == branch.items());
                }
                r
            },
        }
    }

    /// Returns every stored item whose bounding box crosses the given y
    /// value: exactly the items a brute-force scan would report.
    pub fn bb_crossing_y_value(&self, y: i64) -> (r: Vec<HB>)
        requires
            self.wf(),
        ensures
            forall|k: int|
                0 <= k < r@.len() ==> self.items().contains(#[trigger] r@[k])
                    && r@[k].bb_spec().crossing_y_spec(y as int),
            forall|j: int|
                0 <= j < self.items().len() && (#[trigger] self.items()[j]).bb_spec().crossing_y_spec(
                    y as int,
                ) ==> r@.contains(self.items()[j]),
        decreases self,
    {
        match self {
            AABBTree2D::Empty => Vec::new(),
            AABBTree2D::Leaf(leaf) => {
                let r = leaf.bb_crossing_y_value(y);
                proof {
                    assert(self.items() == leaf.items());
                }
                r
            },
            AABBTree2D::Branch(branch) => {
                let r = branch.bb_crossing_y_value(y);
                proof {
                    assert(self.items() == branch.items());
                }
                r
            },
        }
    }
}

/// The box stored at the root of a well-formed non-empty tree covers the
/// box of every item below it; pruning a subtree whose box fails a query
/// therefore loses no item.
pub proof fn lemma_tree_covers<HB: HasBoundingBox2D + Copy>(t: AABBTree2D<HB>)
    requires
        t.wf(),
        !(t is Empty),
    ensures
        t.items().len() >= 1,
        all_boxes_wf(t.items()),
        forall|x: HB| #[trigger] t.items().contains(x) ==> t.box_spec().covers(x.bb_spec()),
        t.box_spec().wf(),
    decreases t,
{
    match t {
        AABBTree2D::Empty => {
        },
        AABBTree2D::Leaf(leaf) => {
            lemma_merged_items_bounds(leaf.items());
        },
        AABBTree2D::Branch(branch) => {
            lemma_tree_covers(*branch.left);
            lemma_tree_covers(*branch.right);
            let li = branch.left.items();
            let ri = branch.right.items();
            crate::bounding_box_2d::lemma_merge_bounds(
                branch.left.box_spec(),
                branch.right.box_spec(),
            );
            assert(t.items() == li + ri);
            assert(forall|i: int|
                0 <= i < li.len() ==> (li + ri)[i] == li[i] && li.contains(li[i]));
            assert(forall|i: int|
                li.len() <= i < li.len() + ri.len() ==> (li + ri)[i] == ri[i - li.len()]
                    && ri.contains(ri[i - li.len()]));
            assert(forall|x: HB| #[trigger] (li + ri).contains(x) ==> li.contains(x)
                || ri.contains(x));
            assert(forall|i: int|
                0 <= i < t.items().len() ==> (#[trigger] t.items()[i]).bb_spec().wf());
        },
    }
}

/// The query result of a built tree matches a brute-force scan of the build
/// input: an item of the input is reported exactly when its own bounding box
/// collides with the query box. The hypotheses are precisely what `new`
/// ensures about the tree and what `bb_colliding` ensures about the result.
pub proof fn lemma_query_matches_brute_force<HB: HasBoundingBox2D + Copy>(
    data: Seq<HB>,
    tree_items: Seq<HB>,
    result: Seq<HB>,
    q: BoundingBox2D,
)
    requires
        tree_items.to_set() == data.to_set(),
        forall|k: int|
            0 <= k < result.len() ==> tree_items.contains(#[trigger] result[k])
                && result[k].bb_spec().collides_spec(q),
        forall|j: int|
            0 <= j < tree_items.len() && (#[trigger] tree_items[j]).bb_spec().collides_spec(q)
                ==> result.contains(tree_items[j]),
    ensures
        result.to_set() == data.to_set().filter(|x: HB| x.bb_spec().collides_spec(q)),
{
    let brute = data.to_set().filter(|x: HB| x.bb_spec().collides_spec(q));
    assert forall|x: HB| result.to_set().contains(x) implies brute.contains(x) by {
        assert(result.contains(x));
        let k = choose|k: int| 0 <= k < result.len() && result[k] == x;
        assert(tree_items.contains(x));
        assert(tree_items.to_set().contains(x));
        assert(data.to_set().contains(x));
    }
    assert forall|x: HB| brute.contains(x) implies result.to_set().contains(x) by {
        assert(data.to_set().contains(x));
        assert(tree_items.to_set().contains(x));
        assert(tree_items.contains(x));
        let j = choose|j: int| 0 <= j < tree_items.len() && tree_items[j] == x;
        assert(tree_items[j].bb_spec().collides_spec(q));
        assert(result.contains(tree_items[j]));
    }
    assert(result.to_set() =~= brute);
}

} // verus!
