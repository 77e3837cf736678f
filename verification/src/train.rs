use crate::grid::Grid;
use crate::path::track::Track;
use crate::path::track::TrackPiece;
use vstd::prelude::*;

verus! {

/// The number of distance units in one pixel.
pub const UNITS: i64 = 1000;

/// The length of the piece `i`, in distance units.
pub open spec fn piece_len(grid: Grid, tracks: Seq<Track>, i: int) -> int {
    tracks[i].spec_len(grid) * UNITS
}

/// Where a point ends up that lies `d` units past the start of the piece
/// `idx`, with `d` not negative: the piece and the distance along it, and
/// whether it met the end of the track. While the distance is more than the
/// piece's length and a piece follows, it moves on to that piece, shorter
/// by the length; past the last piece it stops at that piece's end.
pub open spec fn forward(grid: Grid, tracks: Seq<Track>, idx: int, d: int) -> (int, int, bool)
    decreases tracks.len() - idx,
{
    let len = piece_len(grid, tracks, idx);
    if d <= len {
        (idx, d, false)
    } else if idx + 1 < tracks.len() {
        forward(grid, tracks, idx + 1, d - len)
    } else {
        (idx, len, true)
    }
}

/// Where a point ends up that lies `d` units past the start of the piece
/// `idx`, with `d` negative: while the distance is negative and a piece
/// comes before, it moves back to that piece, longer by its length; before
/// the first piece it stops at that piece's start.
pub open spec fn backward(grid: Grid, tracks: Seq<Track>, idx: int, d: int) -> (int, int, bool)
    decreases idx,
{
    if d >= 0 {
        (idx, d, false)
    } else if idx > 0 {
        backward(grid, tracks, idx - 1, d + piece_len(grid, tracks, idx - 1))
    } else {
        (idx, 0, true)
    }
}

/// Where a point ends up that lies `d` units past the start of the piece
/// `idx`, whatever the sign of `d`.
pub open spec fn resolve(grid: Grid, tracks: Seq<Track>, idx: int, d: int) -> (int, int, bool) {
    if d < 0 {
        backward(grid, tracks, idx, d)
    } else {
        forward(grid, tracks, idx, d)
    }
}

/// The length of the track from the start of the piece `idx` to its end.
pub open spec fn rest_len(grid: Grid, tracks: Seq<Track>, idx: int) -> int
    decreases tracks.len() - idx,
{
    if idx >= tracks.len() {
        0
    } else {
        piece_len(grid, tracks, idx) + rest_len(grid, tracks, idx + 1)
    }
}

/// A point that moves forward always ends on a piece of the track, within
/// that piece's length.
pub proof fn lemma_forward_within(grid: Grid, tracks: Seq<Track>, idx: int, d: int)
    requires
        grid.wf(),
        0 <= idx < tracks.len(),
        0 <= d,
    ensures
        idx <= forward(grid, tracks, idx, d).0 < tracks.len(),
        0 <= forward(grid, tracks, idx, d).1 <= piece_len(grid, tracks, forward(grid, tracks, idx, d).0),
    decreases tracks.len() - idx,
{
    let len = piece_len(grid, tracks, idx);
    if d > len && idx + 1 < tracks.len() {
        lemma_forward_within(grid, tracks, idx + 1, d - len);
    }
}

/// A point that moves backward always ends on a piece of the track, within
/// that piece's length.
pub proof fn lemma_backward_within(grid: Grid, tracks: Seq<Track>, idx: int, d: int)
    requires
        grid.wf(),
        0 <= idx < tracks.len(),
        d <= piece_len(grid, tracks, idx),
    ensures
        0 <= backward(grid, tracks, idx, d).0 <= idx,
        0 <= backward(grid, tracks, idx, d).1 <= piece_len(grid, tracks, backward(grid, tracks, idx, d).0),
    decreases idx,
{
    if d < 0 && idx > 0 {
        lemma_backward_within(grid, tracks, idx - 1, d + piece_len(grid, tracks, idx - 1));
    }
}

/// A point that moves past the end of the last piece stops at that end, and
/// is told to turn back; one that does not is not.
pub proof fn lemma_forward_bounce(grid: Grid, tracks: Seq<Track>, idx: int, d: int)
    requires
        grid.wf(),
        0 <= idx < tracks.len(),
        0 <= d,
    ensures
        d > rest_len(grid, tracks, idx) ==> forward(grid, tracks, idx, d) == (
            tracks.len() - 1,
            piece_len(grid, tracks, tracks.len() - 1),
            true,
        ),
        d <= rest_len(grid, tracks, idx) ==> !forward(grid, tracks, idx, d).2,
    decreases tracks.len() - idx,
{
    let len = piece_len(grid, tracks, idx);
    assert(rest_len(grid, tracks, idx) == len + rest_len(grid, tracks, idx + 1));
    if idx + 1 < tracks.len() {
        lemma_rest_len_bounds(grid, tracks, idx + 1);
        if d > len {
            lemma_forward_bounce(grid, tracks, idx + 1, d - len);
        }
    } else {
        assert(rest_len(grid, tracks, idx + 1) == 0);
    }
}

/// What is left of the track is never of negative length.
pub proof fn lemma_rest_len_bounds(grid: Grid, tracks: Seq<Track>, idx: int)
    requires
        grid.wf(),
        0 <= idx,
    ensures
        0 <= rest_len(grid, tracks, idx),
    decreases tracks.len() - idx,
{
    if idx < tracks.len() {
        lemma_rest_len_bounds(grid, tracks, idx + 1);
    }
}

/// A point that moves forward without meeting the end of the track ends as
/// far from that end as it set out, less the way it went: it moves along the
/// track and never jumps.
pub proof fn lemma_forward_keeps_place(grid: Grid, tracks: Seq<Track>, idx: int, d: int)
    requires
        grid.wf(),
        0 <= idx < tracks.len(),
        0 <= d <= rest_len(grid, tracks, idx),
    ensures
        ({
            let to = forward(grid, tracks, idx, d);
            !to.2 && rest_len(grid, tracks, to.0) - to.1 == rest_len(grid, tracks, idx) - d
        }),
    decreases tracks.len() - idx,
{
    let len = piece_len(grid, tracks, idx);
    assert(rest_len(grid, tracks, idx) == len + rest_len(grid, tracks, idx + 1));
    if d > len {
        if idx + 1 < tracks.len() {
            lemma_forward_keeps_place(grid, tracks, idx + 1, d - len);
        } else {
            assert(rest_len(grid, tracks, idx + 1) == 0);
        }
    }
}

/// A point that moves backward without meeting the start of the track ends
/// as far from the end of the track as it set out, more the way it went.
pub proof fn lemma_backward_keeps_place(grid: Grid, tracks: Seq<Track>, idx: int, d: int)
    requires
        grid.wf(),
        0 <= idx < tracks.len(),
        d < 0,
        0 <= d + (rest_len(grid, tracks, 0) - rest_len(grid, tracks, idx)),
    ensures
        ({
            let to = backward(grid, tracks, idx, d);
            !to.2 && rest_len(grid, tracks, to.0) - to.1 == rest_len(grid, tracks, idx) - d
        }),
    decreases idx,
{
    if idx > 0 {
        let len = piece_len(grid, tracks, idx - 1);
        assert(rest_len(grid, tracks, idx - 1) == len + rest_len(grid, tracks, idx));
        if d + len < 0 {
            lemma_backward_keeps_place(grid, tracks, idx - 1, d + len);
        }
    }
}

/// A segment whose move would carry it past the end of the last piece stands
/// at that end afterwards, with its speed turned round.
pub proof fn lemma_turns_at_end(seg: Segment, grid: Grid, tracks: Seq<Track>, delta: int)
    requires
        grid.wf(),
        seg.wf(),
        0 <= seg.track < tracks.len() <= usize::MAX,
        seg.dist + seg.speed * delta > rest_len(grid, tracks, seg.track as int),
    ensures
        ({
            let after = seg.spec_update(grid, tracks, delta);
            &&& after.speed == -seg.speed
            &&& after.track == tracks.len() - 1
            &&& after.dist == piece_len(grid, tracks, tracks.len() - 1)
            &&& 0 <= after.dist
        }),
{
    lemma_rest_len_bounds(grid, tracks, seg.track as int);
    lemma_forward_bounce(grid, tracks, seg.track as int, seg.dist + seg.speed * delta);
}

/// A segment whose move would carry it back past the start of the first
/// piece stands at that start afterwards, with its speed turned round.
pub proof fn lemma_turns_at_start(seg: Segment, grid: Grid, tracks: Seq<Track>, delta: int)
    requires
        grid.wf(),
        seg.wf(),
        0 <= seg.track < tracks.len(),
        seg.dist + seg.speed * delta + (rest_len(grid, tracks, 0) - rest_len(
            grid,
            tracks,
            seg.track as int,
        )) < 0,
    ensures
        ({
            let after = seg.spec_update(grid, tracks, delta);
            &&& after.speed == -seg.speed
            &&& after.track == 0
            &&& after.dist == 0
        }),
{
    lemma_backward_bounce(grid, tracks, seg.track as int, seg.dist + seg.speed * delta);
}

/// A point that moves back past the start of the first piece stops at that
/// start, and is told to turn round.
pub proof fn lemma_backward_bounce(grid: Grid, tracks: Seq<Track>, idx: int, d: int)
    requires
        grid.wf(),
        0 <= idx < tracks.len(),
        d + (rest_len(grid, tracks, 0) - rest_len(grid, tracks, idx)) < 0,
    ensures
        d < 0,
        backward(grid, tracks, idx, d) == (0int, 0int, true),
    decreases idx,
{
    lemma_before_len(grid, tracks, idx);
    if idx > 0 {
        assert(rest_len(grid, tracks, idx - 1) == piece_len(grid, tracks, idx - 1) + rest_len(
            grid,
            tracks,
            idx,
        ));
        lemma_backward_bounce(grid, tracks, idx - 1, d + piece_len(grid, tracks, idx - 1));
    }
}

/// The track before a piece is never of negative length.
pub proof fn lemma_before_len(grid: Grid, tracks: Seq<Track>, idx: int)
    requires
        grid.wf(),
        0 <= idx <= tracks.len(),
    ensures
        0 <= rest_len(grid, tracks, 0) - rest_len(grid, tracks, idx),
    decreases idx,
{
    if idx > 0 {
        lemma_before_len(grid, tracks, idx - 1);
        assert(rest_len(grid, tracks, idx - 1) == piece_len(grid, tracks, idx - 1) + rest_len(
            grid,
            tracks,
            idx,
        ));
    }
}

/// One rigid point of a train: its speed in pixels a second, the piece of
/// track it is on, and its distance from the start of that piece in
/// thousandths of a pixel.
#[derive(Debug, Copy, Clone, PartialEq, Eq, Structural)]
pub struct Segment {
    pub speed: i64,
    pub track: usize,
    pub dist: i64,
}

impl Segment {
    /// The speed is one that can be turned round.
    pub open spec fn wf(&self) -> bool {
        -0x8000_0000 <= self.speed <= 0x8000_0000
    }

    /// The segment after `delta` thousandths of a second on the track
    /// `tracks`: it has moved by its speed times `delta`, from piece to
    /// piece where it left one, and has turned round where it met an end
    /// of the track.
    pub open spec fn spec_update(self, grid: Grid, tracks: Seq<Track>, delta: int) -> Segment {
        let to = resolve(grid, tracks, self.track as int, self.dist + self.speed * delta);
        Segment {
            speed: if to.2 {
                (-self.speed) as i64
            } else {
                self.speed
            },
            track: to.0 as usize,
            dist: to.1 as i64,
        }
    }

    /// A segment of the given speed at `dist` units from the start of the
    /// piece `track`.
    pub fn new(speed: i32, track: usize, dist: i64) -> (r: Segment)
        ensures
            r.speed == speed,
            r.track == track,
            r.dist == dist,
            r.wf(),
    {
        Segment { speed: speed as i64, track, dist }
    }

    /// Moves the segment along `tracks` for `delta` thousandths of a
    /// second. Afterwards it is on a piece of the track and within that
    /// piece's length; where it met an end of the track it stands at that
    /// end and its speed has changed sign.
    pub fn update(&mut self, grid: &Grid, tracks: &Vec<Track>, delta: u32)
        requires
            grid.wf(),
            old(self).wf(),
            old(self).track < tracks@.len(),
        ensures
            *final(self) == old(self).spec_update(*grid, tracks@, delta as int),
            final(self).wf(),
            final(self).track < tracks@.len(),
            0 <= final(self).dist <= piece_len(*grid, tracks@, final(self).track as int),
            final(self).speed == old(self).speed || final(self).speed == -old(self).speed,
    {
        let step: i64 = {
            assert(-0x8000_0000 * 0x1_0000_0000 <= self.speed * delta <= 0x8000_0000 * 0xFFFF_FFFF)
                by (nonlinear_arith)
                requires
                    -0x8000_0000 <= self.speed <= 0x8000_0000,
                    0 <= delta <= 0xFFFF_FFFF,
            ;
            self.speed * (delta as i64)
        };
        let mut d: i128 = self.dist as i128 + step as i128;
        let mut idx: usize = self.track;
        let mut bounced: bool = false;
        let ghost d0 = d as int;
        let ghost idx0 = idx as int;
        if d < 0 {
            proof {
                lemma_backward_within(*grid, tracks@, idx0, d0);
            }
            while d < 0 && !bounced
                invariant
                    grid.wf(),
                    idx < tracks@.len(),
                    -0x8000_0000_0000_0000_0000 <= d <= 0x8000_0000_0000,
                    bounced ==> d == 0 && idx == 0,
                    backward(*grid, tracks@, idx0, d0) == if bounced {
                        (0int, 0int, true)
                    } else {
                        backward(*grid, tracks@, idx as int, d as int)
                    },
                decreases idx + (if bounced { 0int } else { 1int }),
            {
                if idx > 0 {
                    idx -= 1;
                    let len: i32 = tracks[idx].len(grid);
                    d = d + (len as i128) * (UNITS as i128);
                } else {
                    d = 0;
                    bounced = true;
                }
            }
        } else {
            proof {
                lemma_forward_within(*grid, tracks@, idx0, d0);
            }
            loop
                invariant
                    grid.wf(),
                    idx < tracks@.len(),
                    0 <= d <= 0x8000_0000_0000_0000_0000,
                    forward(*grid, tracks@, idx0, d0) == if bounced {
                        (idx as int, d as int, true)
                    } else {
                        forward(*grid, tracks@, idx as int, d as int)
                    },
                    bounced ==> d == piece_len(*grid, tracks@, idx as int),
                ensures
                    forward(*grid, tracks@, idx0, d0) == (idx as int, d as int, bounced),
                    idx < tracks@.len(),
                decreases tracks@.len() - idx + (if bounced { 0int } else { 1int }),
            {
                let len: i128 = (tracks[idx].len(grid) as i128) * (UNITS as i128);
                if d <= len || bounced {
                    break ;
                }
                if idx < tracks.len() - 1 {
                    d = d - len;
                    idx += 1;
                } else {
                    d = len;
                    bounced = true;
                }
            }
        }
        if bounced {
            self.speed = -self.speed;
        }
        self.track = idx;
        self.dist = d as i64;
    }
}

/// A train: the segments that move along the track together.
pub struct Train {
    pub segments: Vec<Segment>,
}

impl Train {
    /// The distance at which the segment `i` of a new train starts: the
    /// segments come in pairs, the second of a pair `len` units after the
    /// first, the next pair `gap` units after that.
    pub open spec fn spec_dist(dist: int, gap: int, len: int, i: int) -> int {
        dist + (i / 2) * (len + gap) + (if i % 2 == 1 {
            len
        } else {
            0
        })
    }

    /// A train of `shape.0` pairs of segments on the piece `track`, all of
    /// the given speed. The first segment is `dist` units from the start of
    /// the piece; the second of each pair follows the first by `shape.2`
    /// units, and the next pair follows by `shape.1` units more.
    pub fn new(speed: i32, track: usize, dist: i64, shape: (usize, u32, u32)) -> (r: Train)
        requires
            dist + shape.0 * (shape.1 + shape.2) <= i64::MAX,
        ensures
            r.segments@.len() == 2 * shape.0,
            forall|i: int|
                0 <= i < r.segments@.len() ==> (#[trigger] r.segments@[i]) == (Segment {
                    speed: speed as i64,
                    track,
                    dist: Train::spec_dist(dist as int, shape.1 as int, shape.2 as int, i) as i64,
                }),
    {
        let seg_n: usize = shape.0;
        let gap: i64 = shape.1 as i64;
        let len: i64 = shape.2 as i64;
        let mut segments: Vec<Segment> = Vec::new();
        let mut last: i64 = dist;
        let mut k: usize = 0;
        while k < seg_n
            invariant
                0 <= k <= seg_n,
                gap == shape.1,
                len == shape.2,
                dist + seg_n * (len + gap) <= i64::MAX,
                last == dist + k * (len + gap),
                segments@.len() == 2 * k,
                forall|i: int|
                    0 <= i < segments@.len() ==> (#[trigger] segments@[i]) == (Segment {
                        speed: speed as i64,
                        track,
                        dist: Train::spec_dist(dist as int, gap as int, len as int, i) as i64,
                    }),
            decreases seg_n - k,
        {
            proof {
                assert((k + 1) * (len + gap) <= seg_n * (len + gap)) by (nonlinear_arith)
                    requires
                        k + 1 <= seg_n,
                        0 <= len + gap,
                ;
                assert((k + 1) * (len + gap) == k * (len + gap) + (len + gap)) by (nonlinear_arith);
                assert(0 <= k * (len + gap)) by (nonlinear_arith)
                    requires
                        0 <= k,
                        0 <= len + gap,
                ;
                assert((2 * k) / 2 == k && (2 * k) % 2 == 0);
                assert((2 * k + 1) / 2 == k && (2 * k + 1) % 2 == 1);
            }
            segments.push(Segment::new(speed, track, last));
            segments.push(Segment::new(speed, track, last + len));
            last = last + (len + gap);
            k += 1;
        }
        Train { segments }
    }

    /// Moves every segment of the train along `tracks` for `delta`
    /// thousandths of a second.
    pub fn update(&mut self, grid: &Grid, tracks: &Vec<Track>, delta: u32)
        requires
            grid.wf(),
            forall|i: int|
                0 <= i < old(self).segments@.len() ==> (#[trigger] old(self).segments@[i]).wf() && old(
                    self,
                ).segments@[i].track < tracks@.len(),
        ensures
            final(self).segments@.len() == old(self).segments@.len(),
            forall|i: int|
                0 <= i < final(self).segments@.len() ==> (#[trigger] final(self).segments@[i]) == old(
                    self,
                ).segments@[i].spec_update(*grid, tracks@, delta as int) && final(self).segments@[i].wf()
                    && final(self).segments@[i].track < tracks@.len(),
    {
        let mut i: usize = 0;
        while i < self.segments.len()
            invariant
                grid.wf(),
                0 <= i <= self.segments@.len(),
                self.segments@.len() == old(self).segments@.len(),
                forall|j: int|
                    i <= j < self.segments@.len() ==> (#[trigger] self.segments@[j]) == old(
                        self,
                    ).segments@[j],
                forall|j: int|
                    0 <= j < old(self).segments@.len() ==> (#[trigger] old(self).segments@[j]).wf() && old(
                        self,
                    ).segments@[j].track < tracks@.len(),
                forall|j: int|
                    0 <= j < i ==> (#[trigger] self.segments@[j]) == old(self).segments@[j].spec_update(
                        *grid,
                        tracks@,
                        delta as int,
                    ) && self.segments@[j].wf() && self.segments@[j].track < tracks@.len(),
            decreases self.segments@.len() - i,
        {
            let mut seg = self.segments[i];
            assert(seg == old(self).segments@[i as int]);
            seg.update(grid, tracks, delta);
            self.segments.set(i, seg);
            i += 1;
        }
    }
}

} // verus!
