use vstd::prelude::*;
use vstd::set_lib::{lemma_int_range, lemma_subset_equality, set_int_range};

verus! {

/// An RGBA pixel.
pub type Pixel = [u8; 4];

/// A rendered pixel together with its image coordinates.
pub struct PlacedPixel {
    pub i: usize,
    pub j: usize,
    pub color: Pixel,
}

/// A pixel whose job could not produce a colour.
pub struct PlacedPixelErr {
    pub i: usize,
    pub j: usize,
}

/// What a pixel job hands back to the collector.
pub type ResultMessage = Result<PlacedPixel, PlacedPixelErr>;

/// The colour every framebuffer cell holds before a result lands in it.
pub open spec fn placeholder() -> Pixel {
    [0u8, 0u8, 0u8, 255u8]
}

/// A framebuffer of `n` placeholder cells.
pub open spec fn blank(n: nat) -> Seq<Pixel> {
    Seq::new(n, |k: int| placeholder())
}

pub open spec fn in_grid(width: nat, height: nat, i: nat, j: nat) -> bool {
    i < width && j < height
}

/// Slot of pixel `(i, j)` in a row-major framebuffer whose first row is the
/// top of the image, while `j` counts rows from the bottom.
pub open spec fn offset_of(width: nat, height: nat, i: nat, j: nat) -> int {
    (height - 1 - j) * width + i
}

pub open spec fn msg_i(m: ResultMessage) -> nat {
    match m {
        Ok(p) => p.i as nat,
        Err(e) => e.i as nat,
    }
}

pub open spec fn msg_j(m: ResultMessage) -> nat {
    match m {
        Ok(p) => p.j as nat,
        Err(e) => e.j as nat,
    }
}

/// The framebuffer after writing, in order, the colour of every successful
/// result into its slot; failed results leave the framebuffer as it is.
pub open spec fn apply_results(
    width: nat,
    height: nat,
    image: Seq<Pixel>,
    msgs: Seq<ResultMessage>,
) -> Seq<Pixel>
    decreases msgs.len(),
{
    if msgs.len() == 0 {
        image
    } else {
        let prev = apply_results(width, height, image, msgs.drop_last());
        match msgs.last() {
            Ok(p) => prev.update(offset_of(width, height, p.i as nat, p.j as nat), p.color),
            Err(_) => prev,
        }
    }
}

/// Computes the framebuffer slot of pixel `(i, j)`.
pub fn pixel_offset(width: usize, height: usize, i: usize, j: usize) -> (r: usize)
    requires
        i < width,
        j < height,
        width * height <= usize::MAX,
    ensures
        r == offset_of(width as nat, height as nat, i as nat, j as nat),
        r < width * height,
{
    proof {
        assert((height - 1 - j) * width + i < width * height) by (nonlinear_arith)
            requires
                i < width,
                j < height,
        ;
    }
    (height - 1 - j) * width + i
}

/// Distinct pixels of the grid own distinct framebuffer slots, and every
/// slot of a `width * height` framebuffer belongs to one pixel of the grid.
pub proof fn lemma_offset_bijective(width: nat, height: nat)
    ensures
        forall|i: nat, j: nat|
            #![trigger offset_of(width, height, i, j)]
            in_grid(width, height, i, j) ==> 0 <= offset_of(width, height, i, j) < width
                * height,
        forall|i1: nat, j1: nat, i2: nat, j2: nat|
            #![trigger offset_of(width, height, i1, j1), offset_of(width, height, i2, j2)]
            in_grid(width, height, i1, j1) && in_grid(width, height, i2, j2) && offset_of(
                width,
                height,
                i1,
                j1,
            ) == offset_of(width, height, i2, j2) ==> i1 == i2 && j1 == j2,
        forall|k: int|
            0 <= k < width * height ==> #[trigger] offset_of(
                width,
                height,
                (k % width as int) as nat,
                (height - 1 - k / width as int) as nat,
            ) == k && in_grid(
                width,
                height,
                (k % width as int) as nat,
                (height - 1 - k / width as int) as nat,
            ),
{
    assert forall|i: nat, j: nat| in_grid(width, height, i, j) implies 0 <= offset_of(
        width,
        height,
        i,
        j,
    ) < width * height by {
        lemma_slot_in_range(width, height, i, j);
    }
    assert forall|i1: nat, j1: nat, i2: nat, j2: nat|
        in_grid(width, height, i1, j1) && in_grid(width, height, i2, j2) && offset_of(
            width,
            height,
            i1,
            j1,
        ) == offset_of(width, height, i2, j2) implies i1 == i2 && j1 == j2 by {
        lemma_slot_injective(width, height, i1, j1, i2, j2);
    }
    assert forall|k: int| 0 <= k < width * height implies #[trigger] offset_of(
        width,
        height,
        (k % width as int) as nat,
        (height - 1 - k / width as int) as nat,
    ) == k && in_grid(
        width,
        height,
        (k % width as int) as nat,
        (height - 1 - k / width as int) as nat,
    ) by {
        lemma_slot_owner(width, height, k);
    }
}

proof fn lemma_slot_in_range(width: nat, height: nat, i: nat, j: nat)
    requires
        in_grid(width, height, i, j),
    ensures
        0 <= offset_of(width, height, i, j) < width * height,
{
    assert(0 <= (height - 1 - j) * width + i < width * height) by (nonlinear_arith)
        requires
            i < width,
            j < height,
    ;
}

proof fn lemma_slot_injective(width: nat, height: nat, i1: nat, j1: nat, i2: nat, j2: nat)
    requires
        in_grid(width, height, i1, j1),
        in_grid(width, height, i2, j2),
        offset_of(width, height, i1, j1) == offset_of(width, height, i2, j2),
    ensures
        i1 == i2,
        j1 == j2,
{
    let r1: int = height - 1 - j1;
    let r2: int = height - 1 - j2;
    assert(r1 * width + i1 == r2 * width + i2);
    assert(r1 == r2 && i1 == i2) by (nonlinear_arith)
        requires
            r1 * width + i1 == r2 * width + i2,
            0 <= i1 < width,
            0 <= i2 < width,
            r1 >= 0,
            r2 >= 0,
    {
        if r1 < r2 {
            assert(r1 * width + width <= r2 * width);
        } else if r2 < r1 {
            assert(r2 * width + width <= r1 * width);
        }
    }
}

proof fn lemma_slot_owner(width: nat, height: nat, k: int)
    requires
        0 <= k < width * height,
    ensures
        offset_of(width, height, (k % width as int) as nat, (height - 1 - k / width as int) as nat)
            == k,
        in_grid(width, height, (k % width as int) as nat, (height - 1 - k / width as int) as nat),
{
    let w = width as int;
    let h = height as int;
    assert(w > 0) by (nonlinear_arith)
        requires
            0 <= k < w * h,
            h >= 0,
    ;
    let q = k / w;
    let r = k % w;
    assert(k == q * w + r && 0 <= r < w) by (nonlinear_arith)
        requires
            w > 0,
            q == k / w,
            r == k % w,
    ;
    assert(0 <= q < h) by (nonlinear_arith)
        requires
            k == q * w + r,
            0 <= r < w,
            0 <= k < w * h,
    ;
}

/// Assembles pixel results, arriving in any order, into a framebuffer.
///
/// The collector is the only writer of the framebuffer. The render is
/// complete once exactly `width * height` results have been received.
pub struct Collector {
    width: usize,
    height: usize,
    received: usize,
    image: Vec<Pixel>,
    history: Ghost<Seq<ResultMessage>>,
}

impl Collector {
    pub closed spec fn width(&self) -> nat {
        self.width as nat
    }

    pub closed spec fn height(&self) -> nat {
        self.height as nat
    }

    /// The results received so far, in order of arrival.
    pub closed spec fn history(&self) -> Seq<ResultMessage> {
        self.history@
    }

    pub closed spec fn image(&self) -> Seq<Pixel> {
        self.image@
    }

    pub open spec fn total(&self) -> nat {
        self.width() * self.height()
    }

    pub closed spec fn wf(&self) -> bool {
        &&& self.width * self.height <= usize::MAX
        &&& self.received == self.history@.len()
        &&& self.received <= self.width * self.height
        &&& self.image@ == apply_results(
            self.width as nat,
            self.height as nat,
            blank((self.width * self.height) as nat),
            self.history@,
        )
        &&& self.image@.len() == self.width * self.height
    }

    /// A collector for a `width` by `height` grid, with every cell of its
    /// framebuffer set to the placeholder colour.
    pub fn new(width: usize, height: usize) -> (r: Collector)
        requires
            width * height <= usize::MAX,
        ensures
            r.wf(),
            r.width() == width,
            r.height() == height,
            r.history() == Seq::<ResultMessage>::empty(),
            r.image() == blank((width * height) as nat),
    {
        let n = width * height;
        let mut image: Vec<Pixel> = Vec::with_capacity(n);
        let mut k: usize = 0;
        while k < n
            invariant
                k <= n,
                image@ == blank(k as nat),
            decreases n - k,
        {
            image.push([0u8, 0u8, 0u8, 255u8]);
            k = k + 1;
            assert(image@ =~= blank(k as nat));
        }
        Collector { width, height, received: 0, image, history: Ghost(Seq::empty()) }
    }

    /// Whether every expected result has been received.
    pub fn is_done(&self) -> (r: bool)
        requires
            self.wf(),
        ensures
            r == (self.history().len() == self.total()),
    {
        self.received == self.width * self.height
    }

    /// Takes one result: a successful one is written into its slot, a failed
    /// one leaves the framebuffer unchanged. Returns whether the count of
    /// received results has just completed a row's worth.
    pub fn receive(&mut self, msg: ResultMessage) -> (row_done: bool)
        requires
            old(self).wf(),
            old(self).history().len() < old(self).total(),
            in_grid(old(self).width(), old(self).height(), msg_i(msg), msg_j(msg)),
        ensures
            final(self).wf(),
            final(self).width() == old(self).width(),
            final(self).height() == old(self).height(),
            final(self).history() == old(self).history().push(msg),
            final(self).image() == match msg {
                Ok(p) => old(self).image().update(
                    offset_of(old(self).width(), old(self).height(), p.i as nat, p.j as nat),
                    p.color,
                ),
                Err(_) => old(self).image(),
            },
            row_done == (final(self).history().len() % final(self).width() == 0),
    {
        let ghost old_history = self.history@;
        match &msg {
            Ok(p) => {
                let k = pixel_offset(self.width, self.height, p.i, p.j);
                self.image.set(k, p.color);
            },
            Err(_) => {},
        }
        self.received = self.received + 1;
        self.history = Ghost(old_history.push(msg));
        proof {
            assert(self.history@.drop_last() =~= old_history);
        }
        self.received % self.width == 0
    }

    /// Hands over the framebuffer.
    pub fn into_image(self) -> (r: Vec<Pixel>)
        requires
            self.wf(),
        ensures
            r@ == self.image(),
            r@ == apply_results(self.width(), self.height(), blank(self.total()), self.history()),
    {
        self.image
    }
}

/// Every result names a pixel of the grid.
pub open spec fn all_in_grid(width: nat, height: nat, msgs: Seq<ResultMessage>) -> bool {
    forall|k: int| 0 <= k < msgs.len() ==> in_grid(width, height, msg_i(#[trigger] msgs[k]), msg_j(msgs[k]))
}

/// No two results name the same pixel.
pub open spec fn coords_distinct(msgs: Seq<ResultMessage>) -> bool {
    forall|a: int, b: int|
        0 <= a < msgs.len() && 0 <= b < msgs.len() && a != b ==> (msg_i(#[trigger] msgs[a]), msg_j(msgs[a]))
            != (msg_i(#[trigger] msgs[b]), msg_j(msgs[b]))
}

pub open spec fn msg_offset(width: nat, height: nat, m: ResultMessage) -> int {
    offset_of(width, height, msg_i(m), msg_j(m))
}

/// What a result leaves in its own slot of framebuffer `image`.
pub open spec fn msg_color(m: ResultMessage, before: Pixel) -> Pixel {
    match m {
        Ok(p) => p.color,
        Err(_) => before,
    }
}

proof fn lemma_apply_distinct(width: nat, height: nat, image: Seq<Pixel>, msgs: Seq<ResultMessage>)
    requires
        image.len() == width * height,
        all_in_grid(width, height, msgs),
        coords_distinct(msgs),
    ensures
        apply_results(width, height, image, msgs).len() == image.len(),
        forall|k: int|
            0 <= k < msgs.len() ==> apply_results(width, height, image, msgs)[msg_offset(
                width,
                height,
                #[trigger] msgs[k],
            )] == msg_color(msgs[k], image[msg_offset(width, height, msgs[k])]),
        forall|x: int|
            0 <= x < image.len() && (forall|k: int|
                0 <= k < msgs.len() ==> msg_offset(width, height, #[trigger] msgs[k]) != x)
                ==> #[trigger] apply_results(width, height, image, msgs)[x] == image[x],
    decreases msgs.len(),
{
    lemma_offset_bijective(width, height);
    if msgs.len() > 0 {
        let rest = msgs.drop_last();
        assert forall|k: int| 0 <= k < rest.len() implies in_grid(
            width,
            height,
            msg_i(#[trigger] rest[k]),
            msg_j(rest[k]),
        ) by {
            assert(rest[k] == msgs[k]);
        }
        assert forall|a: int, b: int|
            0 <= a < rest.len() && 0 <= b < rest.len() && a != b implies (
            msg_i(#[trigger] rest[a]),
            msg_j(rest[a]),
        ) != (msg_i(#[trigger] rest[b]), msg_j(rest[b])) by {
            assert(rest[a] == msgs[a] && rest[b] == msgs[b]);
        }
        lemma_apply_distinct(width, height, image, rest);
        let last = msgs.last();
        let n = msgs.len() - 1;
        assert(in_grid(width, height, msg_i(msgs[n]), msg_j(msgs[n])));
        let lo = msg_offset(width, height, last);
        assert forall|k: int| 0 <= k < msgs.len() implies apply_results(
            width,
            height,
            image,
            msgs,
        )[msg_offset(width, height, #[trigger] msgs[k])] == msg_color(
            msgs[k],
            image[msg_offset(width, height, msgs[k])],
        ) by {
            if k < n {
                assert(rest[k] == msgs[k]);
                assert(in_grid(width, height, msg_i(msgs[k]), msg_j(msgs[k])));
                assert((msg_i(msgs[k]), msg_j(msgs[k])) != (msg_i(msgs[n]), msg_j(msgs[n])));
                assert(msg_offset(width, height, msgs[k]) != lo);
            } else {
                assert forall|q: int| 0 <= q < rest.len() implies msg_offset(
                    width,
                    height,
                    #[trigger] rest[q],
                ) != lo by {
                    assert(rest[q] == msgs[q]);
                    assert(in_grid(width, height, msg_i(msgs[q]), msg_j(msgs[q])));
                    assert((msg_i(msgs[q]), msg_j(msgs[q])) != (msg_i(msgs[n]), msg_j(msgs[n])));
                }
            }
        }
        assert forall|x: int|
            0 <= x < image.len() && (forall|k: int|
                0 <= k < msgs.len() ==> msg_offset(width, height, #[trigger] msgs[k]) != x)
                implies #[trigger] apply_results(width, height, image, msgs)[x] == image[x] by {
            assert forall|k: int| 0 <= k < rest.len() implies msg_offset(
                width,
                height,
                #[trigger] rest[k],
            ) != x by {
                assert(rest[k] == msgs[k]);
            }
            assert(msg_offset(width, height, msgs[n]) != x);
        }
    }
}

/// Once a result has arrived for each pixel of the grid, exactly once each
/// and in any order, the framebuffer is complete: every slot belongs to one
/// of the results, and holds that result's colour (a failed pixel keeps the
/// placeholder).
pub proof fn lemma_collect_complete(width: nat, height: nat, msgs: Seq<ResultMessage>)
    requires
        msgs.len() == width * height,
        all_in_grid(width, height, msgs),
        coords_distinct(msgs),
    ensures
        msgs.map_values(|m: ResultMessage| msg_offset(width, height, m)).to_set() == set_int_range(
            0,
            (width * height) as int,
        ),
        forall|i: nat, j: nat|
            in_grid(width, height, i, j) ==> exists|k: int|
                0 <= k < msgs.len() && msg_i(#[trigger] msgs[k]) == i && msg_j(msgs[k]) == j,
        forall|k: int|
            0 <= k < msgs.len() ==> apply_results(width, height, blank(width * height), msgs)[msg_offset(
                width,
                height,
                #[trigger] msgs[k],
            )] == msg_color(msgs[k], placeholder()),
{
    let n = width * height;
    lemma_offset_bijective(width, height);
    lemma_apply_distinct(width, height, blank(n), msgs);
    let offs = msgs.map_values(|m: ResultMessage| msg_offset(width, height, m));
    assert forall|a: int, b: int| 0 <= a < offs.len() && 0 <= b < offs.len() && a != b implies offs[a]
        != offs[b] by {
        assert(in_grid(width, height, msg_i(msgs[a]), msg_j(msgs[a])));
        assert(in_grid(width, height, msg_i(msgs[b]), msg_j(msgs[b])));
        assert((msg_i(msgs[a]), msg_j(msgs[a])) != (msg_i(msgs[b]), msg_j(msgs[b])));
    }
    assert(offs.no_duplicates());
    offs.unique_seq_to_set();
    lemma_int_range(0, n as int);
    assert forall|x: int| offs.to_set().contains(x) implies set_int_range(0, n as int).contains(x) by {
        let k = choose|k: int| 0 <= k < offs.len() && offs[k] == x;
        assert(in_grid(width, height, msg_i(msgs[k]), msg_j(msgs[k])));
    }
    assert(offs.to_set().finite()) by {
        vstd::set_lib::lemma_set_subset_finite(set_int_range(0, n as int), offs.to_set());
    }
    lemma_subset_equality(offs.to_set(), set_int_range(0, n as int));
    assert forall|i: nat, j: nat| in_grid(width, height, i, j) implies exists|k: int|
        0 <= k < msgs.len() && msg_i(#[trigger] msgs[k]) == i && msg_j(msgs[k]) == j by {
        let x = offset_of(width, height, i, j);
        assert(0 <= x < n);
        assert(offs.to_set().contains(x));
        let k = choose|k: int| 0 <= k < offs.len() && offs[k] == x;
        assert(in_grid(width, height, msg_i(msgs[k]), msg_j(msgs[k])));
        assert(msg_i(msgs[k]) == i && msg_j(msgs[k]) == j);
    }
}

} // verus!
