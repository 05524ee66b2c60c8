//! Mapping a block of rendered sub-samples onto one terminal cell.
//!
//! A cell is rendered at 2x4 sub-sample resolution. The eight colors are
//! split into two clusters with a fixed number of 2-means passes, the
//! cluster membership mask picks a dot-matrix glyph, and the cluster means
//! become the cell colors.

use vstd::prelude::*;

use crate::color::brightness_spec;
use crate::color::Color;
use crate::fixed::lemma_tdiv_bounds;
use crate::fixed::tdiv;
use crate::maths::Vec3;

verus! {

broadcast use vstd::array::group_array_axioms;

/// Sub-samples per cell along the horizontal axis.
pub const SUBPIXEL_X: usize = 2;

/// Sub-samples per cell along the vertical axis.
pub const SUBPIXEL_Y: usize = 4;

/// Channel magnitude under which the clustering arithmetic cannot overflow.
pub const CHANNEL_LIMIT: i64 = 0x0400_0000_0000_0000;

/// One cell as it is drawn: foreground and background colors and a glyph.
#[derive(Debug, Clone, Copy)]
pub struct TerminalPixel {
    pub fg: Color,
    pub bg: Color,
    pub character: char,
}

impl TerminalPixel {
    pub fn new(fg: Color, bg: Color, character: char) -> (r: Self)
        ensures
            r.fg == fg,
            r.bg == bg,
            r.character == character,
    {
        Self { fg, bg, character }
    }
}

/// The cell a fresh frame buffer is filled with: black on black, drawn as
/// a space.
pub open spec fn blank_cell() -> TerminalPixel {
    TerminalPixel {
        fg: Vec3 { x: 0i64, y: 0i64, z: 0i64 },
        bg: Vec3 { x: 0i64, y: 0i64, z: 0i64 },
        character: ' ',
    }
}

impl Default for TerminalPixel {
    /// A blank cell: black on black, drawn as a space.
    fn default() -> (r: Self)
        ensures
            r == blank_cell(),
    {
        Self { fg: Color::black(), bg: Color::black(), character: ' ' }
    }
}

/// All channels of one sample stay below the clustering overflow bound.
pub open spec fn channel_bounded(c: Color) -> bool {
    &&& -CHANNEL_LIMIT <= c.x <= CHANNEL_LIMIT
    &&& -CHANNEL_LIMIT <= c.y <= CHANNEL_LIMIT
    &&& -CHANNEL_LIMIT <= c.z <= CHANNEL_LIMIT
}

/// Every sample of the cell is bounded.
pub open spec fn cell_bounded(s: Seq<Color>) -> bool {
    forall|i: int| 0 <= i < s.len() ==> channel_bounded(#[trigger] s[i])
}

/// Squared Euclidean distance between two colors, on the raw components.
pub open spec fn dist2(a: Color, b: Color) -> int {
    (a.x - b.x) * (a.x - b.x) + (a.y - b.y) * (a.y - b.y) + (a.z - b.z) * (a.z - b.z)
}

/// A sample joins cluster 0 exactly when it is strictly nearer to center 0.
pub open spec fn in_cluster0(c: Color, c0: Color, c1: Color) -> bool {
    dist2(c, c0) < dist2(c, c1)
}

/// How many of the first `n` samples land in the chosen cluster.
pub open spec fn cluster_count(s: Seq<Color>, c0: Color, c1: Color, pick0: bool, n: int) -> int
    decreases n,
{
    if n <= 0 {
        0
    } else {
        cluster_count(s, c0, c1, pick0, n - 1) + if in_cluster0(s[n - 1], c0, c1) == pick0 {
            1int
        } else {
            0int
        }
    }
}

/// Componentwise sum of the first `n` samples landing in the chosen cluster.
pub open spec fn cluster_sum(s: Seq<Color>, c0: Color, c1: Color, pick0: bool, n: int) -> (
    int,
    int,
    int,
)
    decreases n,
{
    if n <= 0 {
        (0int, 0int, 0int)
    } else {
        let p = cluster_sum(s, c0, c1, pick0, n - 1);
        if in_cluster0(s[n - 1], c0, c1) == pick0 {
            (p.0 + s[n - 1].x, p.1 + s[n - 1].y, p.2 + s[n - 1].z)
        } else {
            p
        }
    }
}

/// One 2-means pass: reassign all eight samples, then move each center to
/// the mean of its cluster, leaving a center alone if its cluster emptied.
pub open spec fn kmeans_step(s: Seq<Color>, c0: Color, c1: Color) -> (Color, Color) {
    let n0 = cluster_count(s, c0, c1, true, 8);
    let m0 = cluster_sum(s, c0, c1, true, 8);
    let n1 = cluster_count(s, c0, c1, false, 8);
    let m1 = cluster_sum(s, c0, c1, false, 8);
    let d0 = if n0 != 0 {
        Vec3 { x: tdiv(m0.0, n0) as i64, y: tdiv(m0.1, n0) as i64, z: tdiv(m0.2, n0) as i64 }
    } else {
        c0
    };
    let d1 = if n1 != 0 {
        Vec3 { x: tdiv(m1.0, n1) as i64, y: tdiv(m1.1, n1) as i64, z: tdiv(m1.2, n1) as i64 }
    } else {
        c1
    };
    (d0, d1)
}

/// `k` 2-means passes from the given seeds.
pub open spec fn kmeans_iter(s: Seq<Color>, c0: Color, c1: Color, k: int) -> (Color, Color)
    decreases k,
{
    if k <= 0 {
        (c0, c1)
    } else {
        let p = kmeans_iter(s, c0, c1, k - 1);
        kmeans_step(s, p.0, p.1)
    }
}

/// Index of the first sample from position `i` on that differs from `c0`;
/// 8 when the rest of the cell equals `c0`.
pub open spec fn scan_differing(s: Seq<Color>, c0: Color, i: int) -> int
    decreases 8 - i,
{
    if i >= 8 {
        8
    } else if s[i] != c0 {
        i
    } else {
        scan_differing(s, c0, i + 1)
    }
}

/// The whole cell is one color.
pub open spec fn uniform_cell(s: Seq<Color>) -> bool {
    scan_differing(s, s[0], 0) >= 8
}

/// The two cluster seeds: the first sample and the first sample differing
/// from it, swapped so that the darker one seeds cluster 0.
pub open spec fn seed_pair(s: Seq<Color>) -> (Color, Color) {
    let c0 = s[0];
    let c1 = s[scan_differing(s, c0, 0)];
    if brightness_spec(c0) > brightness_spec(c1) {
        (c1, c0)
    } else {
        (c0, c1)
    }
}

/// The two colors the 2-means clustering settles on: the sole color for a
/// uniform cell, else sixteen passes from the seeds.
pub open spec fn detect_centers(s: Seq<Color>) -> (Color, Color) {
    if uniform_cell(s) {
        (s[0], s[0])
    } else {
        kmeans_iter(s, seed_pair(s).0, seed_pair(s).1, 16)
    }
}

/// The final membership mask: for a uniform cell the mask that was passed
/// in; otherwise the assignment against the centers of the last pass.
pub open spec fn detect_mask(s: Seq<Color>, initial: Seq<bool>) -> Seq<bool> {
    if uniform_cell(s) {
        initial
    } else {
        let p = kmeans_iter(s, seed_pair(s).0, seed_pair(s).1, 15);
        Seq::new(8, |i: int| in_cluster0(s[i], p.0, p.1))
    }
}

/// Skipping a prefix of samples equal to `c0` does not change the scan.
proof fn lemma_scan_skip(s: Seq<Color>, c0: Color, i: int)
    requires
        0 <= i <= 8,
        forall|k: int| 0 <= k < i ==> s[k] == c0,
    ensures
        scan_differing(s, c0, 0) == scan_differing(s, c0, i),
    decreases i,
{
    if i > 0 {
        lemma_scan_skip(s, c0, i - 1);
        assert(s[i - 1] == c0);
    }
}

/// Cluster counts and sums stay within the bounds the samples obey.
proof fn lemma_cluster_bounds(s: Seq<Color>, c0: Color, c1: Color, pick0: bool, n: int)
    requires
        0 <= n <= s.len(),
        cell_bounded(s),
    ensures
        0 <= cluster_count(s, c0, c1, pick0, n) <= n,
        -cluster_count(s, c0, c1, pick0, n) * (CHANNEL_LIMIT as int) <= cluster_sum(
            s,
            c0,
            c1,
            pick0,
            n,
        ).0 <= cluster_count(s, c0, c1, pick0, n) * (CHANNEL_LIMIT as int),
        -cluster_count(s, c0, c1, pick0, n) * (CHANNEL_LIMIT as int) <= cluster_sum(
            s,
            c0,
            c1,
            pick0,
            n,
        ).1 <= cluster_count(s, c0, c1, pick0, n) * (CHANNEL_LIMIT as int),
        -cluster_count(s, c0, c1, pick0, n) * (CHANNEL_LIMIT as int) <= cluster_sum(
            s,
            c0,
            c1,
            pick0,
            n,
        ).2 <= cluster_count(s, c0, c1, pick0, n) * (CHANNEL_LIMIT as int),
    decreases n,
{
    if n > 0 {
        lemma_cluster_bounds(s, c0, c1, pick0, n - 1);
        let c = cluster_count(s, c0, c1, pick0, n - 1);
        let l = CHANNEL_LIMIT as int;
        assert((c + 1) * l == c * l + l) by (nonlinear_arith);
    }
}

/// The mean of a cluster stays within the bounds of its members.
proof fn lemma_mean_bounded(sum: int, n: int, bd: int)
    requires
        n > 0,
        bd >= 0,
        -n * bd <= sum <= n * bd,
    ensures
        -bd <= tdiv(sum, n) <= bd,
{
    lemma_tdiv_bounds(sum, n);
    let q = tdiv(sum, n);
    assert(-bd <= q <= bd) by (nonlinear_arith)
        requires
            n > 0,
            bd >= 0,
            -n * bd <= sum <= n * bd,
            sum >= 0 ==> q >= 0 && n * q <= sum,
            sum < 0 ==> q <= 0 && sum <= n * q,
    ;
}

/// A 2-means step keeps both centers within the channel bound if both
/// incoming centers were within it.
proof fn lemma_step_bounded(s: Seq<Color>, c0: Color, c1: Color)
    requires
        s.len() == 8,
        cell_bounded(s),
        channel_bounded(c0),
        channel_bounded(c1),
    ensures
        channel_bounded(kmeans_step(s, c0, c1).0),
        channel_bounded(kmeans_step(s, c0, c1).1),
{
    let l = CHANNEL_LIMIT as int;
    lemma_cluster_bounds(s, c0, c1, true, 8);
    lemma_cluster_bounds(s, c0, c1, false, 8);
    let n0 = cluster_count(s, c0, c1, true, 8);
    let m0 = cluster_sum(s, c0, c1, true, 8);
    if n0 != 0 {
        lemma_mean_bounded(m0.0, n0, l);
        lemma_mean_bounded(m0.1, n0, l);
        lemma_mean_bounded(m0.2, n0, l);
    }
    let n1 = cluster_count(s, c0, c1, false, 8);
    let m1 = cluster_sum(s, c0, c1, false, 8);
    if n1 != 0 {
        lemma_mean_bounded(m1.0, n1, l);
        lemma_mean_bounded(m1.1, n1, l);
        lemma_mean_bounded(m1.2, n1, l);
    }
}

/// Squared distance between two bounded colors, accumulated exactly.
fn sq_dist(a: &Color, b: &Color) -> (r: i128)
    requires
        channel_bounded(*a),
        channel_bounded(*b),
    ensures
        r == dist2(*a, *b),
{
    let dx: i64 = a.x - b.x;
    let dy: i64 = a.y - b.y;
    let dz: i64 = a.z - b.z;
    proof {
        let bd = 2 * CHANNEL_LIMIT as int;
        assert(-(bd * bd) <= dx * dx <= bd * bd && -(bd * bd) <= dy * dy <= bd * bd && -(bd * bd)
            <= dz * dz <= bd * bd) by (nonlinear_arith)
            requires
                -bd <= dx <= bd,
                -bd <= dy <= bd,
                -bd <= dz <= bd,
                bd > 0,
        ;
    }
    (dx as i128) * (dx as i128) + (dy as i128) * (dy as i128) + (dz as i128) * (dz as i128)
}

/// 2-means clustering of the eight sub-samples into a foreground (darker
/// seeded) and a background cluster. Returns the two cluster means and
/// marks in `is_foreground` which samples joined the first cluster; for a
/// uniform cell the marks are left as they were handed in.
pub fn foreground_background_detection(colors: &[Color; 8], is_foreground: &mut [bool; 8]) -> (r: (
    Color,
    Color,
))
    requires
        cell_bounded(colors@),
    ensures
        r.0 == detect_centers(colors@).0,
        r.1 == detect_centers(colors@).1,
        final(is_foreground)@ =~= detect_mask(colors@, old(is_foreground)@),
        channel_bounded(r.0),
        channel_bounded(r.1),
        uniform_cell(colors@) ==> r.0 == colors@[0] && r.1 == colors@[0],
{
    let c0: Color = colors[0];
    let mut c1: Color = Vec3::zero();
    let mut found: bool = false;
    let mut j: usize = 0;
    while j < 8 && !found
        invariant
            0 <= j <= 8,
            c0 == colors@[0],
            !found ==> forall|k: int| 0 <= k < j ==> colors@[k] == c0,
            found ==> j < 8 && colors@[j as int] != c0 && c1 == colors@[j as int] && (forall|
                k: int,
            |
                0 <= k < j ==> colors@[k] == c0),
        decreases 8 - j + if found {
            0int
        } else {
            1int
        },
    {
        if colors[j] != c0 {
            c1 = colors[j];
            found = true;
        } else {
            j = j + 1;
        }
    }
    proof {
        lemma_scan_skip(colors@, c0, j as int);
    }
    if !found {
        assert(uniform_cell(colors@));
        return (c0, c0);
    }
    assert(scan_differing(colors@, c0, 0) == j as int);
    assert(!uniform_cell(colors@));

    // the darker color seeds the foreground cluster
    let mut center0: Color = c0;
    let mut center1: Color = c1;
    if center0.brightness() > center1.brightness() {
        let t = center0;
        center0 = center1;
        center1 = t;
    }
    assert(center0 == seed_pair(colors@).0 && center1 == seed_pair(colors@).1);
    let ghost s0 = center0;
    let ghost s1 = center1;

    let mut it: usize = 0;
    while it < 16
        invariant
            0 <= it <= 16,
            cell_bounded(colors@),
            center0 == kmeans_iter(colors@, s0, s1, it as int).0,
            center1 == kmeans_iter(colors@, s0, s1, it as int).1,
            channel_bounded(center0),
            channel_bounded(center1),
            channel_bounded(s0),
            channel_bounded(s1),
            it >= 1 ==> forall|k: int|
                0 <= k < 8 ==> is_foreground@[k] == in_cluster0(
                    colors@[k],
                    kmeans_iter(colors@, s0, s1, it - 1).0,
                    kmeans_iter(colors@, s0, s1, it - 1).1,
                ),
        decreases 16 - it,
    {
        let ghost cc0 = center0;
        let ghost cc1 = center1;
        let mut n0: i64 = 0;
        let mut n1: i64 = 0;
        let mut sum0: Vec3 = Vec3::zero();
        let mut sum1: Vec3 = Vec3::zero();
        let mut i: usize = 0;
        while i < 8
            invariant
                0 <= i <= 8,
                cell_bounded(colors@),
                channel_bounded(cc0),
                channel_bounded(cc1),
                center0 == cc0,
                center1 == cc1,
                n0 == cluster_count(colors@, cc0, cc1, true, i as int),
                n1 == cluster_count(colors@, cc0, cc1, false, i as int),
                sum0.x == cluster_sum(colors@, cc0, cc1, true, i as int).0,
                sum0.y == cluster_sum(colors@, cc0, cc1, true, i as int).1,
                sum0.z == cluster_sum(colors@, cc0, cc1, true, i as int).2,
                sum1.x == cluster_sum(colors@, cc0, cc1, false, i as int).0,
                sum1.y == cluster_sum(colors@, cc0, cc1, false, i as int).1,
                sum1.z == cluster_sum(colors@, cc0, cc1, false, i as int).2,
                forall|k: int|
                    0 <= k < i ==> is_foreground@[k] == in_cluster0(colors@[k], cc0, cc1),
            decreases 8 - i,
        {
            proof {
                lemma_cluster_bounds(colors@, cc0, cc1, true, i as int);
                lemma_cluster_bounds(colors@, cc0, cc1, false, i as int);
                assert(n0 * (CHANNEL_LIMIT as int) <= 8 * (CHANNEL_LIMIT as int) && -(8 * (
                CHANNEL_LIMIT as int)) <= -n0 * (CHANNEL_LIMIT as int)) by (nonlinear_arith)
                    requires
                        0 <= n0 <= 8,
                ;
                assert(n1 * (CHANNEL_LIMIT as int) <= 8 * (CHANNEL_LIMIT as int) && -(8 * (
                CHANNEL_LIMIT as int)) <= -n1 * (CHANNEL_LIMIT as int)) by (nonlinear_arith)
                    requires
                        0 <= n1 <= 8,
                ;
            }
            let color: Color = colors[i];
            let d0: i128 = sq_dist(&color, &center0);
            let d1: i128 = sq_dist(&color, &center1);
            if d0 < d1 {
                sum0 = Vec3::new(sum0.x + color.x, sum0.y + color.y, sum0.z + color.z);
                n0 = n0 + 1;
                is_foreground[i] = true;
            } else {
                sum1 = Vec3::new(sum1.x + color.x, sum1.y + color.y, sum1.z + color.z);
                n1 = n1 + 1;
                is_foreground[i] = false;
            }
            i = i + 1;
        }
        proof {
            lemma_cluster_bounds(colors@, cc0, cc1, true, 8);
            lemma_cluster_bounds(colors@, cc0, cc1, false, 8);
            if n0 != 0 {
                lemma_mean_bounded(sum0.x as int, n0 as int, CHANNEL_LIMIT as int);
                lemma_mean_bounded(sum0.y as int, n0 as int, CHANNEL_LIMIT as int);
                lemma_mean_bounded(sum0.z as int, n0 as int, CHANNEL_LIMIT as int);
            }
            if n1 != 0 {
                lemma_mean_bounded(sum1.x as int, n1 as int, CHANNEL_LIMIT as int);
                lemma_mean_bounded(sum1.y as int, n1 as int, CHANNEL_LIMIT as int);
                lemma_mean_bounded(sum1.z as int, n1 as int, CHANNEL_LIMIT as int);
            }
        }
        if n0 != 0 {
            center0 = Vec3::new(sum0.x / n0, sum0.y / n0, sum0.z / n0);
        }
        if n1 != 0 {
            center1 = Vec3::new(sum1.x / n1, sum1.y / n1, sum1.z / n1);
        }
        proof {
            assert(kmeans_iter(colors@, s0, s1, it + 1).0 == kmeans_step(colors@, cc0, cc1).0
                && kmeans_iter(colors@, s0, s1, it + 1).1 == kmeans_step(colors@, cc0, cc1).1);
            lemma_step_bounded(colors@, cc0, cc1);
        }
        it = it + 1;
    }
    (center0, center1)
}

/// Number of set marks among the first `n`.
pub open spec fn count_true(s: Seq<bool>, n: int) -> int
    decreases n,
{
    if n <= 0 {
        0
    } else {
        count_true(s, n - 1) + if s[n - 1] {
            1int
        } else {
            0int
        }
    }
}

/// Powers of two, for reading a mark sequence as a bitmask.
pub open spec fn pow2u(n: int) -> int
    decreases n,
{
    if n <= 0 {
        1
    } else {
        2 * pow2u(n - 1)
    }
}

/// The first `n` marks read as a bitmask, mark `k` contributing bit `k`.
pub open spec fn mask_val(s: Seq<bool>, n: int) -> int
    decreases n,
{
    if n <= 0 {
        0
    } else {
        mask_val(s, n - 1) + if s[n - 1] {
            pow2u(n - 1)
        } else {
            0int
        }
    }
}

proof fn lemma_mask_val_bound(s: Seq<bool>, n: int)
    requires
        n >= 0,
    ensures
        0 <= mask_val(s, n) < pow2u(n),
        0 <= count_true(s, n) <= n,
    decreases n,
{
    if n > 0 {
        lemma_mask_val_bound(s, n - 1);
    }
}

/// The dot-matrix bit order differs from the row-major sample order: bits
/// 1, 2, 3, 4 move to the glyph positions 1, 4, 2, 5 while the bottom row
/// stays in place.
pub open spec fn braille_offset_spec(m: u32) -> u32 {
    (m & 0x01) | ((m & 0x02) << 2) | ((m & 0x04) >> 1) | ((m & 0x08) << 1) | ((m & 0x10) >> 2) | (m
        & 0x20) | (m & 0x40) | (m & 0x80)
}

/// Relies on char::from_u32: `Some` exactly on Unicode scalar values (not a
/// surrogate, at most 0x10FFFF), returning the character with that value.
pub assume_specification [ char::from_u32 ](i: u32) -> (r: Option<char>)
    ensures
        (i < 0xD800 || (0xE000 <= i && i <= 0x10FFFF)) <==> r is Some,
        r matches Some(c) ==> c as u32 == i,
;

/// The glyph whose dot pattern matches the given row-major bitmask.
pub fn corresponding_braille_char(bitmask: u32) -> (r: char)
    requires
        bitmask < 256,
    ensures
        r as u32 == 0x2800 + braille_offset_spec(bitmask),
{
    let offset: u32 = (bitmask & 0x01) | ((bitmask & 0x02) << 2) | ((bitmask & 0x04) >> 1) | ((
    bitmask & 0x08) << 1) | ((bitmask & 0x10) >> 2) | (bitmask & 0x20) | (bitmask & 0x40) | (bitmask
        & 0x80);
    proof {
        assert(((bitmask & 0x01) | ((bitmask & 0x02) << 2) | ((bitmask & 0x04) >> 1) | ((bitmask
            & 0x08) << 1) | ((bitmask & 0x10) >> 2) | (bitmask & 0x20) | (bitmask & 0x40) | (bitmask
            & 0x80)) < 256) by (bit_vector)
            requires
                bitmask < 256,
        ;
    }
    let code: u32 = 0x2800 + offset;
    let c: Option<char> = char::from_u32(code);
    match c {
        Some(ch) => ch,
        None => {
            proof {
                assert(false);
            }
            ' '
        },
    }
}

/// A cell of eight rendered sub-sample colors, row-major, two per row.
#[derive(Debug, Clone, Copy)]
pub struct RenderPixel {
    colors: [Color; 8],
}

impl View for RenderPixel {
    type V = Seq<Color>;

    closed spec fn view(&self) -> Seq<Color> {
        vstd::array::array_view(self.colors)
    }
}

/// A cell always holds exactly eight samples.
pub broadcast proof fn lemma_render_pixel_view_len(p: &RenderPixel)
    ensures
        (#[trigger] p@).len() == 8,
{
}

/// The membership mask the glyph is built from: all marks clear for a
/// uniform cell, else the final clustering assignment.
pub open spec fn cell_mask(s: Seq<Color>) -> Seq<bool> {
    detect_mask(s, Seq::new(8, |i: int| false))
}

/// The cell color drawn behind the glyph: the foreground cluster mean when
/// most samples joined it, else the background cluster mean.
pub open spec fn cell_pixel_color(s: Seq<Color>) -> Color {
    if count_true(cell_mask(s), 8) > 4 {
        detect_centers(s).0
    } else {
        detect_centers(s).1
    }
}

impl RenderPixel {
    pub fn new() -> (r: Self)
        ensures
            forall|i: int| 0 <= i < 8 ==> r@[i] == (Vec3 { x: 0i64, y: 0i64, z: 0i64 }),
            r@.len() == 8,
    {
        Self { colors: [Color::black();8] }
    }

    /// The sample at column `x`, row `y`.
    pub fn get_color(&self, x: usize, y: usize) -> (r: Color)
        requires
            x < 2,
            y < 4,
        ensures
            r == self@[y * 2 + x],
    {
        self.colors[y * 2 + x]
    }

    pub fn set_color(&mut self, x: usize, y: usize, color: Color)
        requires
            x < 2,
            y < 4,
        ensures
            final(self)@ == old(self)@.update((y * 2 + x) as int, color),
    {
        self.colors[y * 2 + x] = color;
    }

    /// Componentwise sum of the first `n` samples.
    pub open spec fn sum_spec(s: Seq<Color>, n: int) -> (int, int, int)
        decreases n,
    {
        if n <= 0 {
            (0int, 0int, 0int)
        } else {
            let p = Self::sum_spec(s, n - 1);
            (p.0 + s[n - 1].x, p.1 + s[n - 1].y, p.2 + s[n - 1].z)
        }
    }

    /// The mean of the eight samples, each channel rounded toward zero.
    pub fn average_color(&self) -> (r: Color)
        requires
            cell_bounded(self@),
        ensures
            r.x == tdiv(Self::sum_spec(self@, 8).0, 8),
            r.y == tdiv(Self::sum_spec(self@, 8).1, 8),
            r.z == tdiv(Self::sum_spec(self@, 8).2, 8),
    {
        let mut sum: Vec3 = Vec3::zero();
        let mut i: usize = 0;
        while i < 8
            invariant
                0 <= i <= 8,
                cell_bounded(self@),
                sum.x == Self::sum_spec(self@, i as int).0,
                sum.y == Self::sum_spec(self@, i as int).1,
                sum.z == Self::sum_spec(self@, i as int).2,
                -(i as int) * (CHANNEL_LIMIT as int) <= sum.x <= (i as int) * (CHANNEL_LIMIT as int),
                -(i as int) * (CHANNEL_LIMIT as int) <= sum.y <= (i as int) * (CHANNEL_LIMIT as int),
                -(i as int) * (CHANNEL_LIMIT as int) <= sum.z <= (i as int) * (CHANNEL_LIMIT as int),
            decreases 8 - i,
        {
            let c: Color = self.colors[i];
            proof {
                let l = CHANNEL_LIMIT as int;
                let k = i as int;
                assert((k + 1) * l == k * l + l) by (nonlinear_arith);
            }
            sum = Vec3::new(sum.x + c.x, sum.y + c.y, sum.z + c.z);
            i = i + 1;
        }
        Vec3::new(sum.x / 8, sum.y / 8, sum.z / 8)
    }

    /// Map the cell onto one displayed pixel: cluster the samples, pick the
    /// dot glyph from the membership mask, and choose black or white text
    /// for contrast against the drawn cluster color.
    pub fn to_terminal_pixel(&self) -> (r: TerminalPixel)
        requires
            cell_bounded(self@),
        ensures
            r.character as u32 == 0x2800 + braille_offset_spec(
                mask_val(cell_mask(self@), 8) as u32,
            ),
            r.bg == cell_pixel_color(self@),
            r.fg == if brightness_spec(cell_pixel_color(self@)) > 32768 {
                (Vec3 { x: 0i64, y: 0i64, z: 0i64 })
            } else {
                (Vec3 { x: 65536i64, y: 65536i64, z: 65536i64 })
            },
            uniform_cell(self@) ==> r.character as u32 == 0x2800 && r.bg == self@[0],
    {
        let mut is_foreground: [bool; 8] = [false;8];
        proof {
            assert(is_foreground@ =~= Seq::new(8, |i: int| false));
        }
        let (color_fg, color_bg) = foreground_background_detection(&self.colors, &mut is_foreground);
        let ghost mask_seq = cell_mask(self@);
        proof {
            assert(is_foreground@ =~= mask_seq);
        }

        let mut mask: u32 = 0;
        let mut ones: u32 = 0;
        let mut p: u32 = 1;
        let mut i: usize = 0;
        while i < 8
            invariant
                0 <= i <= 8,
                is_foreground@ == mask_seq,
                mask == mask_val(mask_seq, i as int),
                ones == count_true(mask_seq, i as int),
                p == pow2u(i as int),
                0 <= mask < p,
                p <= 256,
                ones <= 8,
            decreases 8 - i,
        {
            proof {
                lemma_mask_val_bound(mask_seq, i as int);
                lemma_mask_val_bound(mask_seq, i + 1);
                lemma_pow2u_values();
            }
            if is_foreground[i] {
                mask = mask + p;
                ones = ones + 1;
            }
            p = p * 2;
            i = i + 1;
        }
        proof {
            lemma_mask_val_bound(mask_seq, 8);
        }
        let braille_char: char = corresponding_braille_char(mask);
        let px_color: Color = if ones > 4 {
            color_fg
        } else {
            color_bg
        };
        proof {
            if uniform_cell(self@) {
                lemma_uniform_mask(self@);
            }
        }
        if px_color.brightness() > 32768 {
            return TerminalPixel::new(Color::black(), px_color, braille_char);
        }
        TerminalPixel::new(Color::white(), px_color, braille_char)
    }
}

/// A uniform cell leaves every mark clear, so its mask value is zero and
/// its glyph is the blank dot pattern.
proof fn lemma_uniform_mask(s: Seq<Color>)
    requires
        uniform_cell(s),
    ensures
        mask_val(cell_mask(s), 8) == 0,
        braille_offset_spec(0) == 0,
{
    let m = cell_mask(s);
    assert(forall|i: int| 0 <= i < 8 ==> !m[i]);
    lemma_mask_zero(m, 8);
    assert(braille_offset_spec(0) == 0) by (bit_vector);
}

proof fn lemma_pow2u_values()
    ensures
        pow2u(0) == 1,
        pow2u(1) == 2,
        pow2u(2) == 4,
        pow2u(3) == 8,
        pow2u(4) == 16,
        pow2u(5) == 32,
        pow2u(6) == 64,
        pow2u(7) == 128,
        pow2u(8) == 256,
{
    assert(pow2u(0) == 1);
    assert(pow2u(1) == 2);
    assert(pow2u(2) == 4);
    assert(pow2u(3) == 8);
    assert(pow2u(4) == 16);
    assert(pow2u(5) == 32);
    assert(pow2u(6) == 64);
    assert(pow2u(7) == 128);
    assert(pow2u(8) == 256);
}

proof fn lemma_mask_zero(s: Seq<bool>, n: int)
    requires
        forall|i: int| 0 <= i < n ==> !s[i],
    ensures
        mask_val(s, n) == 0,
    decreases n,
{
    if n > 0 {
        lemma_mask_zero(s, n - 1);
    }
}

/// `p` is the glyph mapping of the cell of sub-sample colors `s`: the
/// dot-matrix character of the cell's membership mask, the majority
/// cluster mean behind it, and black or white text for contrast — exactly
/// what `to_terminal_pixel` promises of its result.
pub open spec fn rendered_cell(p: TerminalPixel, s: Seq<Color>) -> bool {
    &&& s.len() == 8
    &&& forall|i: int|
        0 <= i < 8 ==> 0 <= (#[trigger] s[i]).x <= 65536 && 0 <= s[i].y <= 65536 && 0 <= s[i].z
            <= 65536
    &&& p.character as u32 == 0x2800 + braille_offset_spec(mask_val(cell_mask(s), 8) as u32)
    &&& p.bg == cell_pixel_color(s)
    &&& p.fg == (if brightness_spec(cell_pixel_color(s)) > 32768 {
        (Vec3 { x: 0i64, y: 0i64, z: 0i64 })
    } else {
        (Vec3 { x: 65536i64, y: 65536i64, z: 65536i64 })
    })
}


} // verus!
