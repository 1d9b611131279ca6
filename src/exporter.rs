use vstd::prelude::*;

use crate::walker::{DirWalker, WalkError, WalkResult};

verus! {

/// The outcome of one watch's walk, with how long the walk took.
#[derive(Debug, Clone, Copy, PartialEq, Eq)]
pub struct TimedOutcome {
    pub outcome: Result<WalkResult, WalkError>,
    /// Wall-clock time of the walk, in whole seconds.
    pub duration_secs: u64,
}

/// What one scrape reports for one watch. The count and the time are absent
/// when the walk failed, so that a failure never reads as "no files".
#[derive(Debug, Clone)]
pub struct Observation {
    pub name: String,
    pub success: bool,
    pub files_visited: Option<u64>,
    pub max_time: Option<u64>,
    pub duration_secs: u64,
}

/// `o` is what the watch named `name` reports for `t`.
pub open spec fn describes(o: Observation, name: Seq<char>, t: TimedOutcome) -> bool {
    &&& o.name@ == name
    &&& o.success == t.outcome is Ok
    &&& o.files_visited == match t.outcome {
        Ok(r) => Some(r.files_visited),
        Err(_) => None,
    }
    &&& o.max_time == match t.outcome {
        Ok(r) => Some(r.max_time),
        Err(_) => None,
    }
    &&& o.duration_secs == t.duration_secs
}

/// The observation for one watch.
pub fn observe(name: &String, t: TimedOutcome) -> (o: Observation)
    ensures
        describes(o, name@, t),
{
    match t.outcome {
        Ok(r) => Observation {
            name: name.clone(),
            success: true,
            files_visited: Some(r.files_visited),
            max_time: Some(r.max_time),
            duration_secs: t.duration_secs,
        },
        Err(_) => Observation {
            name: name.clone(),
            success: false,
            files_visited: None,
            max_time: None,
            duration_secs: t.duration_secs,
        },
    }
}

/// The configured watches, turned into observations once per scrape.
pub struct Exporter {
    file_walkers: Vec<DirWalker>,
}

impl Exporter {
    /// The watches, in configured order.
    pub closed spec fn walkers(&self) -> Seq<DirWalker> {
        self.file_walkers@
    }

    pub fn new(file_walkers: Vec<DirWalker>) -> (r: Exporter)
        ensures
            r.walkers() == file_walkers@,
    {
        Exporter { file_walkers }
    }

    /// The watches, in configured order; each scrape walks them in this order.
    pub fn file_walkers(&self) -> (r: &Vec<DirWalker>)
        ensures
            r@ == self.walkers(),
    {
        &self.file_walkers
    }

    /// One scrape's observations: `outcomes[i]` is the outcome of the walk of
    /// the `i`-th watch, and each observation depends on that outcome alone.
    pub fn collect(&self, outcomes: &Vec<TimedOutcome>) -> (r: Vec<Observation>)
        requires
            outcomes@.len() == self.walkers().len(),
        ensures
            r@.len() == outcomes@.len(),
            forall|i: int|
                0 <= i < r@.len() ==> #[trigger] describes(
                    r@[i],
                    self.walkers()[i].name@,
                    outcomes@[i],
                ),
    {
        let mut r: Vec<Observation> = Vec::new();
        let mut i: usize = 0;
        while i < outcomes.len()
            invariant
                i <= outcomes@.len(),
                outcomes@.len() == self.file_walkers@.len(),
                r@.len() == i,
                forall|j: int|
                    0 <= j < i ==> #[trigger] describes(
                        r@[j],
                        self.file_walkers@[j].name@,
                        outcomes@[j],
                    ),
            decreases outcomes@.len() - i,
        {
            let o = observe(&self.file_walkers[i].name, outcomes[i]);
            r.push(o);
            i = i + 1;
        }
        r
    }
}

/// Every watch has a name, and no two watches share one: the name is the only
/// thing that tells their observations apart.
pub open spec fn names_valid(ws: Seq<DirWalker>) -> bool {
    &&& forall|i: int| 0 <= i < ws.len() ==> #[trigger] ws[i].name@.len() > 0
    &&& forall|i: int, j: int|
        #![trigger ws[i], ws[j]]
        0 <= i < j < ws.len() ==> ws[i].name@ != ws[j].name@
}

/// Whether the names of a configuration's watches are non-empty and unique.
pub fn watch_names_valid(ws: &Vec<DirWalker>) -> (r: bool)
    ensures
        r == names_valid(ws@),
{
    let mut i: usize = 0;
    while i < ws.len()
        invariant
            i <= ws@.len(),
            forall|k: int| 0 <= k < i ==> #[trigger] ws@[k].name@.len() > 0,
            forall|a: int, b: int|
                #![trigger ws@[a], ws@[b]]
                0 <= a < b < i ==> ws@[a].name@ != ws@[b].name@,
        decreases ws@.len() - i,
    {
        if ws[i].name.as_str().is_empty() {
            assert(ws@[i as int].name@.len() == 0);
            return false;
        }
        let mut j: usize = 0;
        while j < i
            invariant
                j <= i < ws@.len(),
                forall|a: int| 0 <= a < j ==> #[trigger] ws@[a].name@ != ws@[i as int].name@,
            decreases i - j,
        {
            if ws[j].name == ws[i].name {
                assert(ws@[j as int].name@ == ws@[i as int].name@);
                return false;
            }
            j = j + 1;
        }
        assert forall|a: int, b: int|
            #![trigger ws@[a], ws@[b]]
            0 <= a < b < i + 1 implies ws@[a].name@ != ws@[b].name@ by {
            if b == i {
                assert(ws@[a].name@ != ws@[i as int].name@);
            }
        }
        i = i + 1;
    }
    true
}

} // verus!
