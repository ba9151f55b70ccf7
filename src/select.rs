use vstd::prelude::*;

verus! {

/// `i` holds the first least key among the candidates whose key lies below
/// `bound`.
pub open spec fn is_first_min_below(keys: Seq<u64>, candidate: Seq<bool>, bound: u64, i: int) -> bool {
    &&& 0 <= i < keys.len()
    &&& candidate[i]
    &&& keys[i] < bound
    &&& forall|j: int| 0 <= j < keys.len() && candidate[j] ==> keys[i] <= #[trigger] keys[j]
    &&& forall|j: int| 0 <= j < i && candidate[j] ==> keys[i] < #[trigger] keys[j]
}

/// Picks, among the positions whose `candidate` flag is set and whose key is
/// below `bound`, the one with the least key; of equal keys, the lowest
/// position. `None` when no candidate lies below `bound`.
pub fn first_min_below(keys: &Vec<u64>, candidate: &Vec<bool>, bound: u64) -> (r: Option<usize>)
    requires
        keys@.len() == candidate@.len(),
    ensures
        match r {
            Some(i) => is_first_min_below(keys@, candidate@, bound, i as int),
            None => forall|j: int|
                0 <= j < keys@.len() && candidate@[j] ==> bound <= #[trigger] keys@[j],
        },
{
    let mut best: Option<usize> = None;
    let mut i: usize = 0;
    while i < keys.len()
        invariant
            keys@.len() == candidate@.len(),
            i <= keys@.len(),
            match best {
                Some(b) => {
                    &&& b < i
                    &&& candidate@[b as int]
                    &&& keys@[b as int] < bound
                    &&& forall|j: int| 0 <= j < i && candidate@[j] ==> keys@[b as int] <= #[trigger] keys@[j]
                    &&& forall|j: int| 0 <= j < b && candidate@[j] ==> keys@[b as int] < #[trigger] keys@[j]
                },
                None => forall|j: int| 0 <= j < i && candidate@[j] ==> bound <= #[trigger] keys@[j],
            },
        decreases keys@.len() - i,
    {
        if candidate[i] {
            let limit = match best {
                Some(b) => keys[b],
                None => bound,
            };
            if keys[i] < limit {
                best = Some(i);
            }
        }
        i = i + 1;
    }
    best
}

/// `i` holds a least key among the candidates whose key lies below `bound`,
/// and of those with that key, the least id.
pub open spec fn is_min_lowest_id(
    keys: Seq<u64>,
    candidate: Seq<bool>,
    ids: Seq<usize>,
    bound: u64,
    i: int,
) -> bool {
    &&& 0 <= i < keys.len()
    &&& candidate[i]
    &&& keys[i] < bound
    &&& forall|j: int| 0 <= j < keys.len() && candidate[j] ==> keys[i] <= #[trigger] keys[j]
    &&& forall|j: int|
        0 <= j < keys.len() && candidate[j] && keys[j] == keys[i] ==> ids[i] <= #[trigger] ids[j]
}

/// Picks, among the positions whose `candidate` flag is set and whose key is
/// below `bound`, one with the least key; of equal keys, the one with the
/// least id. `None` when no candidate lies below `bound`.
pub fn min_lowest_id(keys: &Vec<u64>, candidate: &Vec<bool>, ids: &Vec<usize>, bound: u64) -> (r:
    Option<usize>)
    requires
        keys@.len() == candidate@.len(),
        keys@.len() == ids@.len(),
    ensures
        match r {
            Some(i) => is_min_lowest_id(keys@, candidate@, ids@, bound, i as int),
            None => forall|j: int|
                0 <= j < keys@.len() && candidate@[j] ==> bound <= #[trigger] keys@[j],
        },
{
    let mut best: Option<usize> = None;
    let mut i: usize = 0;
    while i < keys.len()
        invariant
            keys@.len() == candidate@.len(),
            keys@.len() == ids@.len(),
            i <= keys@.len(),
            match best {
                Some(b) => {
                    &&& b < i
                    &&& candidate@[b as int]
                    &&& keys@[b as int] < bound
                    &&& forall|j: int|
                        0 <= j < i && candidate@[j] ==> keys@[b as int] <= #[trigger] keys@[j]
                    &&& forall|j: int|
                        0 <= j < i && candidate@[j] && keys@[j] == keys@[b as int] ==> ids@[b as int]
                            <= #[trigger] ids@[j]
                },
                None => forall|j: int| 0 <= j < i && candidate@[j] ==> bound <= #[trigger] keys@[j],
            },
        decreases keys@.len() - i,
    {
        if candidate[i] {
            let better = match best {
                Some(b) => keys[i] < keys[b] || (keys[i] == keys[b] && ids[i] < ids[b]),
                None => keys[i] < bound,
            };
            if better {
                best = Some(i);
            }
        }
        i = i + 1;
    }
    best
}

} // verus!
