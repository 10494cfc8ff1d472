//! Reducing a palette to a few colours by k-means clustering.

use vstd::prelude::*;
use crate::color::Color;

verus! {

/// Red, green and blue of an opaque colour.
pub type Rgb = (u8, u8, u8);

/// How many clusterings are computed, each from its own seed.
pub const RUNS: u16 = 10;

/// The most iterations that one clustering makes.
pub const MAX_ITERATIONS: usize = 100;

/// The movement of the centroids at or below which a clustering has
/// converged, as a decimal number: the digits, and the power of ten by
/// which they are scaled. This is one tenth.
pub const CONVERGENCE: (u16, i8) = (1, -1);

/// The score that a clustering has to beat to be kept: the bit pattern of
/// the largest finite score.
pub const WORST_SCORE: u32 = 0x7f7f_ffff;

/// One clustering: its score, the colours of the cluster centres, and for
/// each input colour the number of its cluster. The score is held as the bit
/// pattern of a non-negative floating-point number; of two such numbers the
/// smaller has the smaller bit pattern.
pub struct Clustering {
    pub score: u32,
    pub centroids: Vec<Rgb>,
    pub indices: Vec<u8>,
}

/// What `kmeans_colors::get_kmeans` returns for `k` clusters, at most
/// `max_iter` iterations, the convergence threshold `converge` (digits and
/// power of ten), the given colours and the seed: the bit pattern of the
/// score, the centroids as colours of eight bits per channel, and the
/// cluster indices.
pub uninterp spec fn kmeans(
    k: u16,
    max_iter: usize,
    converge: (u16, i8),
    colors: Seq<(u8, u8, u8)>,
    seed: u64,
) -> (u32, Seq<(u8, u8, u8)>, Seq<u8>);

/// Calls `kmeans_colors::get_kmeans` on the colours, which `palette`
/// converts to its floating-point sRGB type and the centroids back. The
/// threshold goes in as the decimal number that its digits and its power of
/// ten write, which std reads. The generator of the call is seeded with
/// `seed`, so the result is a function of the arguments, and the contract
/// names it. The call panics on an empty buffer, which `requires` leaves
/// out. Of the result the contract claims what the crate's source shows:
/// every colour gets one index; there are at most `k` centroids, and at
/// least one where `k` is not zero; and where there is a centroid, every
/// index names one.
#[verifier::external_body]
pub(crate) fn kmeans_run(
    k: u16,
    max_iter: usize,
    converge: (u16, i8),
    colors: &Vec<Rgb>,
    seed: u64,
) -> (run: Clustering)
    requires
        colors@.len() > 0,
    ensures
        (run.score, run.centroids@, run.indices@) == kmeans(k, max_iter, converge, colors@, seed),
        run.indices@.len() == colors@.len(),
        run.centroids@.len() <= k,
        k > 0 ==> run.centroids@.len() > 0,
        forall|i: int|
            0 <= i < run.indices@.len() && run.centroids@.len() > 0 ==> #[trigger] run.indices@[i]
                < run.centroids@.len(),
{
    let buffer: Vec<palette::Srgb> = colors.iter().map(
        |c| palette::Srgb::new(c.0, c.1, c.2).into_format(),
    ).collect();
    let limit = format!("{}e{}", converge.0, converge.1).parse().unwrap_or_default();
    let run = kmeans_colors::get_kmeans(k.into(), max_iter, limit, false, &buffer, seed);
    let mut centroids: Vec<Rgb> = Vec::new();
    for c in run.centroids.iter() {
        let q: palette::Srgb<u8> = c.into_format();
        centroids.push((q.red, q.green, q.blue));
    }
    Clustering { score: run.score.to_bits(), centroids, indices: run.indices }
}

/// Red, green and blue of `c`.
pub open spec fn rgb_of(c: Color) -> (u8, u8, u8) {
    (c.red, c.green, c.blue)
}

/// The opaque colour with the given channels.
pub open spec fn opaque_of(c: (u8, u8, u8)) -> Color {
    Color { red: c.0, green: c.1, blue: c.2, alpha: 255 }
}

/// Red, green and blue of each colour.
pub open spec fn rgb_seq(colors: Seq<Color>) -> Seq<(u8, u8, u8)> {
    Seq::new(colors.len(), |i: int| rgb_of(colors[i]))
}

/// Each colour replaced by the centroid of its cluster, made opaque. A
/// colour without an index, or with an index that names no centroid, stays.
pub open spec fn requantized(colors: Seq<Color>, centroids: Seq<(u8, u8, u8)>, indices: Seq<u8>) -> Seq<
    Color,
> {
    Seq::new(
        colors.len(),
        |i: int|
            if i < indices.len() && indices[i] < centroids.len() {
                opaque_of(centroids[indices[i] as int])
            } else {
                colors[i]
            },
    )
}

/// `best` is the first of the scores that no other score is below, if that
/// score beats `WORST_SCORE`; it is `None` if no score does.
pub open spec fn is_best(scores: Seq<u32>, best: Option<int>) -> bool {
    match best {
        Some(i) => {
            &&& 0 <= i < scores.len()
            &&& scores[i] < WORST_SCORE
            &&& forall|j: int| 0 <= j < scores.len() ==> scores[i] <= #[trigger] scores[j]
            &&& forall|j: int| 0 <= j < i ==> scores[i] < #[trigger] scores[j]
        },
        None => forall|j: int| 0 <= j < scores.len() ==> #[trigger] scores[j] >= WORST_SCORE,
    }
}

/// There is one best score and no other.
pub proof fn lemma_best_unique(scores: Seq<u32>, a: Option<int>, b: Option<int>)
    requires
        is_best(scores, a),
        is_best(scores, b),
    ensures
        a == b,
{
    match (a, b) {
        (Some(i), Some(j)) => {
            if i < j {
                assert(scores[j] < scores[i]);
                assert(scores[i] <= scores[j]);
            } else if j < i {
                assert(scores[i] < scores[j]);
                assert(scores[j] <= scores[i]);
            }
        },
        (Some(i), None) => {
            assert(scores[i] >= WORST_SCORE);
        },
        (None, Some(j)) => {
            assert(scores[j] >= WORST_SCORE);
        },
        (None, None) => {},
    }
}

/// The scores of the clusterings that are seeded with `0`, `1`, and so on
/// below `runs`.
pub open spec fn run_scores(
    k: u16,
    runs: u16,
    max_iter: usize,
    converge: (u16, i8),
    rgb: Seq<(u8, u8, u8)>,
) -> Seq<u32> {
    Seq::new(runs as nat, |i: int| kmeans(k, max_iter, converge, rgb, i as u64).0)
}

/// The colours after quantization to `k` colours: each colour replaced by
/// its centroid in the best of `runs` clusterings. Nothing changes where
/// there is no colour or no clustering beats `WORST_SCORE`.
pub open spec fn quantized(
    colors: Seq<Color>,
    k: u16,
    runs: u16,
    max_iter: usize,
    converge: (u16, i8),
) -> Seq<Color> {
    if colors.len() == 0 {
        colors
    } else {
        let rgb = rgb_seq(colors);
        let best = choose|b: Option<int>| is_best(run_scores(k, runs, max_iter, converge, rgb), b);
        match best {
            Some(i) => {
                let run = kmeans(k, max_iter, converge, rgb, i as u64);
                requantized(colors, run.1, run.2)
            },
            None => colors,
        }
    }
}

/// There are at most `k` different colours among `colors`.
pub open spec fn few_colors(colors: Seq<Color>, k: int) -> bool {
    colors.to_set().finite() && colors.to_set().len() <= k
}

/// Where every colour has an index and every index names a centroid, no
/// more different colours are left than there are centroids.
pub proof fn lemma_requantized_few(
    colors: Seq<Color>,
    centroids: Seq<(u8, u8, u8)>,
    indices: Seq<u8>,
)
    requires
        indices.len() == colors.len(),
        forall|i: int| 0 <= i < indices.len() ==> #[trigger] indices[i] < centroids.len(),
    ensures
        few_colors(requantized(colors, centroids, indices), centroids.len() as int),
{
    let after = requantized(colors, centroids, indices);
    let palette = Seq::new(centroids.len(), |j: int| opaque_of(centroids[j]));
    palette.lemma_cardinality_of_set();
    vstd::seq_lib::seq_to_set_is_finite(palette);
    assert forall|c: Color| after.to_set().contains(c) implies palette.to_set().contains(c) by {
        let i = choose|i: int| 0 <= i < after.len() && after[i] == c;
        assert(indices[i] < centroids.len());
        assert(palette[indices[i] as int] == c);
    }
    vstd::set_lib::lemma_len_subset(after.to_set(), palette.to_set());
}

/// The scores of the clusterings.
pub open spec fn scores_of(runs: Seq<Clustering>) -> Seq<u32> {
    Seq::new(runs.len(), |i: int| runs[i].score)
}

/// The position of the clustering to keep: the first with the lowest score,
/// if that score beats `WORST_SCORE`.
pub fn best_run(runs: &Vec<Clustering>) -> (best: Option<usize>)
    ensures
        is_best(
            scores_of(runs@),
            match best {
                Some(i) => Some(i as int),
                None => None,
            },
        ),
{
    let mut best: Option<usize> = None;
    let mut best_score: u32 = WORST_SCORE;
    let mut i: usize = 0;
    while i < runs.len()
        invariant
            0 <= i <= runs.len(),
            match best {
                Some(b) => b < i && best_score == runs@[b as int].score,
                None => best_score == WORST_SCORE,
            },
            is_best(
                scores_of(runs@).take(i as int),
                match best {
                    Some(b) => Some(b as int),
                    None => None,
                },
            ),
        decreases runs.len() - i,
    {
        if runs[i].score < best_score {
            best_score = runs[i].score;
            best = Some(i);
        }
        i += 1;
    }
    assert(scores_of(runs@).take(i as int) =~= scores_of(runs@));
    best
}

} // verus!
