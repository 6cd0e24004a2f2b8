//! The consumer's side of the sample pipeline: which slot of the colour
//! buffer a sample goes to, how many samples each pixel has, and when the
//! image is complete.
//!
//! The colour sums themselves are kept by the caller, in a row-major buffer
//! of `width * height` slots; this module decides what happens to each
//! message and keeps the counts.

use vstd::prelude::*;

verus! {

/// The sum of the counts.
pub open spec fn total(counts: Seq<usize>) -> int
    decreases counts.len(),
{
    if counts.len() == 0 {
        0
    } else {
        total(counts.drop_last()) + counts.last()
    }
}

/// What an accumulator knows: the size of the image, the samples that each
/// pixel is to get, and the samples that each pixel has, row by row.
pub struct Tally {
    pub width: usize,
    pub height: usize,
    pub samples_per_px: usize,
    pub counts: Seq<usize>,
}

impl Tally {
    /// There is one count for each pixel, and none is above the samples that
    /// a pixel is to get.
    pub open spec fn wf(self) -> bool {
        &&& self.counts.len() == self.width * self.height
        &&& forall|i: int| 0 <= i < self.counts.len() ==> #[trigger] self.counts[i]
            <= self.samples_per_px
    }

    /// The slot of pixel `(row, col)` in a row-major buffer.
    pub open spec fn index(self, row: usize, col: usize) -> int {
        row * self.width + col
    }

    /// The samples that the image needs.
    pub open spec fn expected(self) -> int {
        self.width * self.height * self.samples_per_px
    }

    /// The samples taken in so far.
    pub open spec fn received(self) -> int {
        total(self.counts)
    }

    /// Whether every sample of the image has been taken in.
    pub open spec fn complete(self) -> bool {
        self.received() == self.expected()
    }

    /// A sample is taken in where its pixel lies in the image and still
    /// lacks samples.
    pub open spec fn accepts(self, row: usize, col: usize) -> bool {
        &&& row < self.height
        &&& col < self.width
        &&& self.counts[self.index(row, col)] < self.samples_per_px
    }

    /// The tally after a sample for pixel `(row, col)` has arrived.
    pub open spec fn deliver(self, row: usize, col: usize) -> Tally {
        if self.accepts(row, col) {
            Tally {
                counts: self.counts.update(
                    self.index(row, col),
                    (self.counts[self.index(row, col)] + 1) as usize,
                ),
                ..self
            }
        } else {
            self
        }
    }
}

/// What the consumer found on the channel.
#[derive(Clone, Copy, Debug, PartialEq, Eq, Structural)]
pub enum Event {
    /// A worker's sample for pixel `(row, col)`.
    Sample { row: usize, col: usize },
    /// Nothing is waiting, but workers are still connected.
    Empty,
    /// Nothing is waiting and every worker has hung up.
    Disconnected,
}

/// What the consumer has to do next.
#[derive(Clone, Copy, Debug, PartialEq, Eq, Structural)]
pub enum Action {
    /// Add the sample's colour to slot `index` of the buffer. `preview` asks
    /// for the partial image to be shown afterwards; `done` says that this
    /// was the last sample of the image.
    Accumulate { index: usize, preview: bool, done: bool },
    /// Drop the sample: its pixel is outside the image or has all its samples.
    Discard,
    /// Ask the channel again.
    Wait,
    /// Stop asking: no more samples will come, and `missing` of them never did.
    Stop { missing: usize },
}

/// The consumer's bookkeeping for one image.
pub struct Accumulator {
    width: usize,
    height: usize,
    samples_per_px: usize,
    preview_every: usize,
    received: usize,
    counts: Vec<usize>,
}

impl View for Accumulator {
    type V = Tally;

    closed spec fn view(&self) -> Tally {
        Tally {
            width: self.width,
            height: self.height,
            samples_per_px: self.samples_per_px,
            counts: self.counts@,
        }
    }
}

impl Accumulator {
    /// The number of accepted samples after which a preview is due; 0 for never.
    pub closed spec fn preview_every(&self) -> usize {
        self.preview_every
    }

    /// The tally is well formed, the sample count of the whole image fits
    /// the machine word, and the running count agrees with the tally.
    pub closed spec fn wf(&self) -> bool {
        &&& self@.wf()
        &&& self@.expected() <= usize::MAX
        &&& self.received == self@.received()
    }

    /// Whether a preview is due after the `n`-th accepted sample.
    pub open spec fn preview_due(&self, n: int) -> bool {
        self.preview_every() > 0 && n % (self.preview_every() as int) == 0
    }

    /// An accumulator for an image of `width` by `height` pixels with
    /// `samples_per_px` samples each, no sample taken in yet. `None` where
    /// the number of pixels or of samples does not fit the machine word.
    pub fn new(width: usize, height: usize, samples_per_px: usize, preview_every: usize) -> (acc:
        Option<Accumulator>)
        ensures
            acc is Some <==> width * height <= usize::MAX && width * height * samples_per_px
                <= usize::MAX,
            acc matches Some(a) ==> {
                &&& a.wf()
                &&& a.preview_every() == preview_every
                &&& a@.width == width
                &&& a@.height == height
                &&& a@.samples_per_px == samples_per_px
                &&& a@.counts == Seq::new((width * height) as nat, |i: int| 0usize)
                &&& a@.received() == 0
            },
    {
        let pixels = match width.checked_mul(height) {
            Some(p) => p,
            None => {
                return None;
            },
        };
        if pixels.checked_mul(samples_per_px).is_none() {
            return None;
        }
        let counts: Vec<usize> = vec![0usize; pixels];
        proof {
            assert(counts@ =~= Seq::new((width * height) as nat, |i: int| 0usize));
            lemma_total_bounds(counts@, 0);
        }
        Some(Accumulator { width, height, samples_per_px, preview_every, received: 0, counts })
    }

    /// What to do about `event`, with the bookkeeping brought up to date.
    pub fn step(&mut self, event: Event) -> (action: Action)
        requires
            old(self).wf(),
        ensures
            final(self).wf(),
            final(self).preview_every() == old(self).preview_every(),
            match event {
                Event::Sample { row, col } => {
                    &&& final(self)@ == old(self)@.deliver(row, col)
                    &&& action == if old(self)@.accepts(row, col) {
                        Action::Accumulate {
                            index: old(self)@.index(row, col) as usize,
                            preview: old(self).preview_due(old(self)@.received() + 1),
                            done: final(self)@.complete(),
                        }
                    } else {
                        Action::Discard
                    }
                },
                Event::Empty => final(self)@ == old(self)@ && action == Action::Wait,
                Event::Disconnected => {
                    &&& final(self)@ == old(self)@
                    &&& action == Action::Stop {
                        missing: (old(self)@.expected() - old(self)@.received()) as usize,
                    }
                },
            },
    {
        proof {
            lemma_total_bounds(self.counts@, self.samples_per_px);
        }
        let expected = self.expected();
        match event {
            Event::Sample { row, col } => {
                if row >= self.height || col >= self.width {
                    return Action::Discard;
                }
                let index = self.pixel_index(row, col);
                let count = self.counts[index];
                if count >= self.samples_per_px {
                    return Action::Discard;
                }
                proof {
                    lemma_total_update(self.counts@, index as int, (count + 1) as usize);
                    lemma_total_below(self.counts@, self.samples_per_px, index as int);
                }
                self.counts.set(index, count + 1);
                self.received = self.received + 1;
                Action::Accumulate {
                    index,
                    preview: self.preview_every > 0 && self.received % self.preview_every == 0,
                    done: self.received == expected,
                }
            },
            Event::Empty => Action::Wait,
            Event::Disconnected => Action::Stop { missing: expected - self.received },
        }
    }

    /// The slot of pixel `(row, col)` in the colour buffer.
    pub fn pixel_index(&self, row: usize, col: usize) -> (index: usize)
        requires
            self.wf(),
            row < self@.height,
            col < self@.width,
        ensures
            index == self@.index(row, col),
            index < self@.width * self@.height,
    {
        assert(self.counts.len() == self.width * self.height);
        assert(0 <= row * self.width && row * self.width + col < self.width * self.height)
            by (nonlinear_arith)
            requires
                row < self.height,
                col < self.width,
        ;
        row * self.width + col
    }

    /// The samples that slot `index` of the colour buffer holds.
    pub fn sample_count(&self, index: usize) -> (count: usize)
        requires
            self.wf(),
            index < self@.counts.len(),
        ensures
            count == self@.counts[index as int],
            count <= self@.samples_per_px,
    {
        self.counts[index]
    }

    /// The samples that the image needs.
    pub fn expected(&self) -> (n: usize)
        requires
            self.wf(),
        ensures
            n == self@.expected(),
    {
        assert(self.counts.len() == self.width * self.height);
        self.width * self.height * self.samples_per_px
    }

    /// The samples taken in so far.
    pub fn received(&self) -> (n: usize)
        requires
            self.wf(),
        ensures
            n == self@.received(),
            n <= self@.expected(),
    {
        proof {
            lemma_total_bounds(self.counts@, self.samples_per_px);
        }
        self.received
    }

    /// Whether every sample of the image has been taken in.
    pub fn is_complete(&self) -> (done: bool)
        requires
            self.wf(),
        ensures
            done == self@.complete(),
    {
        self.received == self.expected()
    }
}

/// Raising one count by one raises the sum by one.
proof fn lemma_total_update(counts: Seq<usize>, i: int, value: usize)
    requires
        0 <= i < counts.len(),
        value == counts[i] + 1,
    ensures
        total(counts.update(i, value)) == total(counts) + 1,
    decreases counts.len(),
{
    let after = counts.update(i, value);
    if i == counts.len() - 1 {
        assert(after.drop_last() =~= counts.drop_last());
    } else {
        assert(after.drop_last() =~= counts.drop_last().update(i, value));
        lemma_total_update(counts.drop_last(), i, value);
    }
}

/// Counts that are all at most `cap` sum to at most `cap` times their number.
proof fn lemma_total_bounds(counts: Seq<usize>, cap: usize)
    requires
        forall|i: int| 0 <= i < counts.len() ==> #[trigger] counts[i] <= cap,
    ensures
        0 <= total(counts) <= counts.len() * cap,
    decreases counts.len(),
{
    if counts.len() > 0 {
        lemma_total_bounds(counts.drop_last(), cap);
        assert((counts.len() - 1) * cap + cap == counts.len() * cap) by (nonlinear_arith);
    } else {
        assert(0 * cap == 0) by (nonlinear_arith);
    }
}

/// Where one count is below `cap`, the sum is below `cap` times their number.
proof fn lemma_total_below(counts: Seq<usize>, cap: usize, k: int)
    requires
        forall|i: int| 0 <= i < counts.len() ==> #[trigger] counts[i] <= cap,
        0 <= k < counts.len(),
        counts[k] < cap,
    ensures
        total(counts) < counts.len() * cap,
    decreases counts.len(),
{
    assert((counts.len() - 1) * cap + cap == counts.len() * cap) by (nonlinear_arith);
    if k == counts.len() - 1 {
        lemma_total_bounds(counts.drop_last(), cap);
    } else {
        lemma_total_below(counts.drop_last(), cap, k);
    }
}

/// Once the samples taken in are as many as the image needs, every pixel has
/// exactly the samples it is to get.
pub proof fn lemma_complete_means_every_pixel_full(tally: Tally, i: int)
    requires
        tally.wf(),
        tally.complete(),
        0 <= i < tally.counts.len(),
    ensures
        tally.counts[i] == tally.samples_per_px,
{
    if tally.counts[i] < tally.samples_per_px {
        lemma_total_below(tally.counts, tally.samples_per_px, i);
    }
}

/// The order in which two samples arrive makes no difference to the tally.
pub proof fn lemma_arrival_order_is_irrelevant(
    tally: Tally,
    row_a: usize,
    col_a: usize,
    row_b: usize,
    col_b: usize,
)
    requires
        tally.wf(),
    ensures
        tally.deliver(row_a, col_a).deliver(row_b, col_b) == tally.deliver(row_b, col_b).deliver(
            row_a,
            col_a,
        ),
{
    let ab = tally.deliver(row_a, col_a).deliver(row_b, col_b);
    let ba = tally.deliver(row_b, col_b).deliver(row_a, col_a);
    if row_a < tally.height && col_a < tally.width && row_b < tally.height && col_b
        < tally.width {
        lemma_index_in_frame(tally, row_a, col_a);
        lemma_index_in_frame(tally, row_b, col_b);
    }
    assert(ab.counts =~= ba.counts);
}

/// The slot of a pixel of the image is a slot of the buffer, and tells the
/// pixel.
pub proof fn lemma_index_in_frame(tally: Tally, row: usize, col: usize)
    requires
        row < tally.height,
        col < tally.width,
    ensures
        0 <= tally.index(row, col) < tally.width * tally.height,
        tally.index(row, col) / (tally.width as int) == row,
        tally.index(row, col) % (tally.width as int) == col,
{
    assert(0 <= row * tally.width + col < tally.width * tally.height) by (nonlinear_arith)
        requires
            row < tally.height,
            col < tally.width,
    ;
    vstd::arithmetic::div_mod::lemma_fundamental_div_mod_converse(
        tally.index(row, col),
        tally.width as int,
        row as int,
        col as int,
    );
}

} // verus!
