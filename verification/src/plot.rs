//! Chart layout for a rating record.
//!
//! The seasons of a record, already sorted by label, are laid out as one
//! continuous series: episodes are numbered from 1 and the numbering
//! runs on across season boundaries.  Season membership is kept only
//! for color and legend grouping; each season gets the palette index of
//! its position.  The rating axis is fixed to the -1.0..10.0 band
//! (-10..100 in tenths) so sentinel values sit visibly below the real
//! 0..10 scale.

use vstd::prelude::*;
use vstd::string::StringExecFns;

use crate::tvshow::{Ratings, SeasonRatings};

verus! {

/// Lower bound of the fixed rating axis, in tenths.
pub const RATING_AXIS_MIN_TENTHS: i32 = -10;

/// Upper bound of the fixed rating axis, in tenths.
pub const RATING_AXIS_MAX_TENTHS: i32 = 100;

/// One drawable series: a season's label, its palette slot, and its
/// points as (episode number, rating in tenths).
#[derive(Debug)]
pub struct SeasonSeries {
    pub season_label: String,
    pub color_index: usize,
    pub points: Vec<(usize, i32)>,
}

/// Number of episodes in the seasons before position `i`.
pub open spec fn episodes_before(s: Seq<SeasonRatings>, i: int) -> int
    decreases i,
{
    if i <= 0 {
        0
    } else {
        episodes_before(s, i - 1) + s[i - 1].ratings@.len()
    }
}

/// Total number of episodes in the record.
pub open spec fn total_episodes(s: Seq<SeasonRatings>) -> int {
    episodes_before(s, s.len() as int)
}

proof fn lemma_episodes_before_mono(s: Seq<SeasonRatings>, i: int, j: int)
    requires
        0 <= i <= j <= s.len(),
    ensures
        episodes_before(s, i) <= episodes_before(s, j),
    decreases j - i,
{
    if i < j {
        lemma_episodes_before_mono(s, i, j - 1);
    }
}

/// Lays the record out as one continuous numbered series: season `i`
/// of the record becomes the series with palette slot `i`, and the
/// `j`-th episode of that season becomes the point
/// `(episodes_before + j + 1, rating)`.  Nothing is returned only when
/// the total episode count does not fit the machine.
pub fn build_series(rec: &Ratings) -> (r: Option<Vec<SeasonSeries>>)
    ensures
        match r {
            Some(series) => {
                &&& total_episodes(rec.ratings@) <= usize::MAX
                &&& series@.len() == rec.ratings@.len()
                &&& forall|i: int|
                    0 <= i < series@.len() ==> {
                        &&& series@[i].season_label@ == rec.ratings@[i].season_label@
                        &&& series@[i].color_index == i
                        &&& series@[i].points@.len() == rec.ratings@[i].ratings@.len()
                        &&& forall|j: int|
                            0 <= j < series@[i].points@.len() ==> series@[i].points@[j] == ((
                            episodes_before(rec.ratings@, i) + j + 1) as usize, rec.ratings@[i].ratings@[j])
                    }
            },
            None => total_episodes(rec.ratings@) > usize::MAX,
        },
{
    let mut out: Vec<SeasonSeries> = Vec::new();
    let mut start: usize = 0;
    let mut i: usize = 0;
    while i < rec.ratings.len()
        invariant
            i <= rec.ratings@.len(),
            start as int == episodes_before(rec.ratings@, i as int),
            out@.len() == i,
            forall|a: int|
                0 <= a < i ==> {
                    &&& out@[a].season_label@ == rec.ratings@[a].season_label@
                    &&& out@[a].color_index == a
                    &&& out@[a].points@.len() == rec.ratings@[a].ratings@.len()
                    &&& forall|j: int|
                        0 <= j < out@[a].points@.len() ==> out@[a].points@[j] == ((
                        episodes_before(rec.ratings@, a) + j + 1) as usize, rec.ratings@[a].ratings@[j])
                },
        decreases rec.ratings@.len() - i,
    {
        let season = &rec.ratings[i];
        let n = season.ratings.len();
        if n > usize::MAX - start {
            proof {
                lemma_episodes_before_mono(rec.ratings@, i + 1, rec.ratings@.len() as int);
            }
            return None;
        }
        let mut pts: Vec<(usize, i32)> = Vec::new();
        let mut j: usize = 0;
        while j < n
            invariant
                j <= n,
                n == season.ratings@.len(),
                season == rec.ratings@[i as int],
                start + n <= usize::MAX,
                start as int == episodes_before(rec.ratings@, i as int),
                i < rec.ratings@.len(),
                pts@.len() == j,
                forall|k: int|
                    0 <= k < j ==> pts@[k] == ((start + k + 1) as usize, season.ratings@[k]),
            decreases n - j,
        {
            pts.push((start + j + 1, season.ratings[j]));
            j = j + 1;
        }
        out.push(
            SeasonSeries { season_label: season.season_label.clone(), color_index: i, points: pts },
        );
        start = start + n;
        i = i + 1;
    }
    proof {
        lemma_episodes_before_mono(rec.ratings@, i as int, rec.ratings@.len() as int);
    }
    Some(out)
}

/// The chart's title line for a show.
pub fn plot_title(title: &str) -> (r: String)
    ensures
        r@ == "Ratings for "@ + title@,
{
    let mut s: String = "Ratings for ".to_owned();
    s.append(title);
    s
}

} // verus!
