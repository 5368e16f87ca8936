//! The whole number part of the rectangle demo: where the rectangles start, and
//! the statistics of frame times.

use vstd::prelude::*;

verus! {

/// Width of a rectangle in pixels.
pub const RECT_W: usize = 50;

/// Height of a rectangle in pixels.
pub const RECT_H: usize = 30;

/// Number of rectangles.
pub const RECT_COUNT: usize = 500;

/// Number of frame times that are kept.
pub const MAX_SAMPLES: usize = 1000;

/// Milliseconds between two reports.
pub const REPORT_INTERVAL: isize = 30000;

/// Where a rectangle starts and how fast it moves, in pixels and pixels per second.
#[derive(Copy, Clone, Debug, PartialEq, Eq, Structural)]
pub struct StartRect {
    pub x: usize,
    pub y: usize,
    pub vx: i32,
    pub vy: i32,
    pub color: usize,
}

/// The speeds of the `i`-th rectangle: they grow with the index, vertically up to a
/// bound, and the direction alternates.
pub open spec fn start_speed(i: int) -> (int, int) {
    let vx = (i % 5 + 1) * 100;
    let full = (i / 5 + 1) * 120;
    let vy = if full < 400 {
        full
    } else {
        400
    };
    (
        if i % 2 == 0 {
            vx
        } else {
            -vx
        },
        if i % 3 == 0 {
            vy
        } else {
            -vy
        },
    )
}

/// The `i`-th rectangle on a screen of this size. `color` is the index of its
/// colour in a list of twenty that is used over and over.
pub fn start_rect(i: usize, screen_width: usize, screen_height: usize) -> (r: StartRect)
    requires
        i < RECT_COUNT,
        screen_width > RECT_W,
        screen_height > RECT_H,
    ensures
        r.x == i * 37 % (screen_width - RECT_W),
        r.y == i * 53 % (screen_height - RECT_H),
        r.vx == start_speed(i as int).0,
        r.vy == start_speed(i as int).1,
        r.color == i % 20,
{
    let vx: i32 = ((i % 5 + 1) * 100) as i32;
    let full: usize = (i / 5 + 1) * 120;
    let vy: i32 = if full < 400 { full as i32 } else { 400 };
    StartRect {
        x: i * 37 % (screen_width - RECT_W),
        y: i * 53 % (screen_height - RECT_H),
        vx: if i % 2 == 0 { vx } else { -vx },
        vy: if i % 3 == 0 { vy } else { -vy },
        color: i % 20,
    }
}

/// Every rectangle starts within the screen.
pub proof fn law_rect_starts_on_screen(i: int, width: int, height: int)
    requires
        width > RECT_W,
        height > RECT_H,
    ensures
        0 <= i * 37 % (width - RECT_W) < width - RECT_W,
        0 <= i * 53 % (height - RECT_H) < height - RECT_H,
{
}

/// The numbers are in ascending order.
pub open spec fn is_sorted(s: Seq<isize>) -> bool {
    forall|i: int, j: int| 0 <= i <= j < s.len() ==> s[i] <= s[j]
}

/// The sum of the numbers.
pub open spec fn sum_of(s: Seq<isize>) -> int
    decreases s.len(),
{
    if s.len() == 0 {
        0
    } else {
        sum_of(s.drop_last()) + s.last()
    }
}

/// `sorted` holds the same numbers as `samples`, in ascending order.
pub open spec fn is_sorting(samples: Seq<isize>, sorted: Seq<isize>) -> bool {
    is_sorted(sorted) && sorted.to_multiset() == samples.to_multiset()
}

/// What a report tells about the frame times.
#[derive(Copy, Clone, Debug, PartialEq, Eq, Structural)]
pub struct FrameStats {
    pub count: usize,
    pub sum: i128,
    pub min: isize,
    pub max: isize,
    /// The 95th percentile.
    pub p95: isize,
}

/// The last frame times.
pub struct FrameTimes {
    samples: Vec<isize>,
    next: usize,
}

impl FrameTimes {
    /// The frame times that are kept, in no particular order.
    pub closed spec fn samples(&self) -> Seq<isize> {
        self.samples@
    }

    /// The slot that is written next once all are taken.
    pub closed spec fn next(&self) -> int {
        self.next as int
    }

    /// There are never more frame times than slots.
    pub open spec fn wf(&self) -> bool {
        &&& self.samples().len() <= MAX_SAMPLES
        &&& 0 <= self.next() < MAX_SAMPLES
        &&& self.samples().len() < MAX_SAMPLES ==> self.next() == self.samples().len()
    }

    /// No frame times yet.
    pub fn new() -> (r: FrameTimes)
        ensures
            r.wf(),
            r.samples() == Seq::<isize>::empty(),
    {
        FrameTimes { samples: Vec::new(), next: 0 }
    }

    /// Keep a frame time, in place of the oldest once all slots are taken.
    pub fn record(&mut self, time: isize)
        requires
            old(self).wf(),
        ensures
            final(self).wf(),
            final(self).samples() == if old(self).samples().len() < MAX_SAMPLES {
                old(self).samples().push(time)
            } else {
                old(self).samples().update(old(self).next(), time)
            },
            final(self).next() == (old(self).next() + 1) % MAX_SAMPLES as int,
    {
        if self.samples.len() < MAX_SAMPLES {
            self.samples.push(time);
        } else {
            let at: usize = self.next;
            self.samples[at] = time;
        }
        self.next = (self.next + 1) % MAX_SAMPLES;
    }

    /// The statistics of the frame times that are kept, if there are any.
    pub fn stats(&self) -> (r: Option<FrameStats>)
        requires
            self.wf(),
        ensures
            self.samples().len() == 0 <==> r is None,
            r matches Some(s) ==> {
                let n = self.samples().len() as int;
                let at = if n * 95 / 100 < n - 1 {
                    n * 95 / 100
                } else {
                    n - 1
                };
                &&& s.count == n
                &&& s.sum == sum_of(self.samples())
                &&& exists|sorted: Seq<isize>| #[trigger]
                    is_sorting(self.samples(), sorted) && s.min == sorted[0] && s.max == sorted[n
                        - 1] && s.p95 == sorted[at]
            },
    {
        let n: usize = self.samples.len();
        if n == 0 {
            return None;
        }
        let mut sum: i128 = 0;
        let mut i: usize = 0;
        proof {
            assert(self.samples@.take(0) =~= Seq::<isize>::empty());
        }
        while i < n
            invariant
                i <= n,
                n == self.samples@.len(),
                n <= MAX_SAMPLES,
                sum == sum_of(self.samples@.take(i as int)),
                -(i * 0x8000_0000_0000_0000) <= sum <= i * 0x8000_0000_0000_0000,
            decreases n - i,
        {
            proof {
                assert(self.samples@.take(i + 1).drop_last() =~= self.samples@.take(i as int));
            }
            sum = sum + self.samples[i] as i128;
            i = i + 1;
        }
        proof {
            assert(self.samples@.take(n as int) =~= self.samples@);
        }
        let sorted = sort(&self.samples);
        let at: usize = if n * 95 / 100 < n - 1 { n * 95 / 100 } else { n - 1 };
        proof {
            assert(sorted@.len() == n) by {
                sorted@.to_multiset_ensures();
                self.samples@.to_multiset_ensures();
            }
            assert(is_sorting(self.samples(), sorted@));
        }
        Some(
            FrameStats {
                count: n,
                sum,
                min: sorted[0],
                max: sorted[n - 1],
                p95: sorted[at],
            },
        )
    }
}

/// The numbers in ascending order.
pub fn sort(values: &Vec<isize>) -> (r: Vec<isize>)
    ensures
        is_sorting(values@, r@),
{
    let mut sorted: Vec<isize> = Vec::new();
    let mut i: usize = 0;
    proof {
        assert(values@.take(0) =~= Seq::<isize>::empty());
    }
    while i < values.len()
        invariant
            i <= values@.len(),
            sorted@.len() == i,
            is_sorting(values@.take(i as int), sorted@),
        decreases values@.len() - i,
    {
        let value: isize = values[i];
        let ghost before = sorted@;
        let mut at: usize = i;
        while at > 0 && sorted[at - 1] > value
            invariant
                at <= i,
                sorted@.len() == i,
                is_sorted(sorted@),
                forall|k: int| at <= k < i ==> sorted@[k] > value,
            decreases at,
        {
            at = at - 1;
        }
        sorted.insert(at, value);
        proof {
            assert(values@.take(i + 1) =~= values@.take(i as int).push(value));
            values@.take(i as int).to_multiset_ensures();
            sorted@.to_multiset_ensures();
            assert(sorted@.remove(at as int) =~= before);
            assert(sorted@.contains(value)) by {
                assert(sorted@[at as int] == value);
            }
            assert(sorted@.to_multiset() =~= before.to_multiset().insert(value));
        }
        i = i + 1;
    }
    proof {
        assert(values@.take(i as int) =~= values@);
    }
    sorted
}

/// Whether it is time for a report, given when the last one was.
pub fn report_due(now: isize, last: isize) -> (r: bool)
    requires
        isize::MIN <= now - last <= isize::MAX,
    ensures
        r == (now - last >= REPORT_INTERVAL),
{
    now - last >= REPORT_INTERVAL
}

/// How long to sleep after a frame that took this long: up to 16 milliseconds for
/// a frame.
pub fn frame_sleep(elapsed: isize) -> (r: Option<usize>)
    requires
        16 - elapsed <= isize::MAX,
    ensures
        r == if elapsed < 16 {
            Some((16 - elapsed) as usize)
        } else {
            None
        },
{
    if elapsed < 16 {
        Some((16 - elapsed) as usize)
    } else {
        None
    }
}

/// The speeds of the rectangles: the horizontal one grows by 100 from one to the next in
/// each group of five, the vertical one by 120 from group to group as far as 400. Every
/// second rectangle starts to the right, every third one down.
pub proof fn law_start_speeds(i: int)
    requires
        i >= 0,
    ensures
        ({
            let (x, y) = start_speed(i);
            let (next_x, next_y) = start_speed(i + 1);
            &&& (x > 0) == (i % 2 == 0)
            &&& (y > 0) == (i % 3 == 0)
            &&& i % 5 == 0 ==> x == 100 || x == -100
            &&& i % 5 < 4 && i % 2 == 0 ==> x + next_x == -100
            &&& i % 5 < 4 && i % 2 == 1 ==> x + next_x == 100
            &&& i < 5 ==> y == 120 || y == -120
            &&& i % 5 < 4 ==> y == next_y || y == -next_y
            &&& -400 <= y <= 400
            &&& 15 <= i ==> y == 400 || y == -400
            &&& 5 <= i < 10 ==> y == 240 || y == -240
            &&& 10 <= i < 15 ==> y == 360 || y == -360
        }),
{
}

} // verus!
