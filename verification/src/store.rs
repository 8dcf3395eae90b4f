use vstd::prelude::*;

use crate::error::Error;

verus! {

/// Directories are modelled as their component names from the
/// filesystem root; this is that sequence of names as character
/// sequences.
pub open spec fn comps_view(s: Seq<String>) -> Seq<Seq<char>> {
    Seq::new(s.len(), |i: int| s[i]@)
}

/// The name of the local workspace store directory.
pub open spec fn workshops_marker() -> Seq<char> {
    ".workshops"@
}

/// The ancestor prefix of length `depth` with the workspace marker
/// appended: the directory the upward search probes at that depth.
pub open spec fn candidate_at(cwd: Seq<Seq<char>>, depth: int) -> Seq<Seq<char>> {
    cwd.subrange(0, depth).push(workshops_marker())
}

fn clone_components(p: &Vec<String>) -> (r: Vec<String>)
    ensures
        comps_view(r@) == comps_view(p@),
{
    let mut r: Vec<String> = Vec::new();
    let mut i: usize = 0;
    while i < p.len()
        invariant
            i <= p@.len(),
            r@.len() == i,
            forall|j: int| 0 <= j < i ==> #[trigger] r@[j]@ == p@[j]@,
        decreases p@.len() - i,
    {
        r.push(p[i].clone());
        i = i + 1;
    }
    proof {
        assert(comps_view(r@) =~= comps_view(p@));
    }
    r
}

fn prefix_with_marker(cwd: &Vec<String>, depth: usize) -> (r: Vec<String>)
    requires
        depth <= cwd@.len(),
    ensures
        comps_view(r@) == candidate_at(comps_view(cwd@), depth as int),
{
    let mut r: Vec<String> = Vec::new();
    let mut i: usize = 0;
    while i < depth
        invariant
            i <= depth <= cwd@.len(),
            r@.len() == i,
            forall|j: int| 0 <= j < i ==> #[trigger] r@[j]@ == cwd@[j]@,
        decreases depth - i,
    {
        r.push(cwd[i].clone());
        i = i + 1;
    }
    let marker: String = ".workshops".to_owned();
    r.push(marker);
    proof {
        assert(comps_view(r@) =~= candidate_at(comps_view(cwd@), depth as int));
    }
    r
}

/// How the upward search for a `.workshops` directory ended: the
/// nearest ancestor that has one, or none anywhere up to the root.
/// Absence is a valid state, not an error.
pub enum SearchOutcome {
    Found(Vec<String>),
    NotFound,
}

/// The upward search as a step machine: starting at the working
/// directory, probe `<prefix>/.workshops` for ever shorter ancestor
/// prefixes; the caller answers whether each probed path is an existing
/// directory. The deepest ancestor that has the directory wins; the
/// search itself never creates anything.
pub struct UpwardSearch {
    pub cwd: Vec<String>,
    pub depth: usize,
    pub outcome: Option<SearchOutcome>,
}

impl UpwardSearch {
    pub open spec fn wf(self) -> bool {
        &&& self.depth <= self.cwd@.len()
        &&& match self.outcome {
            Some(SearchOutcome::Found(p)) => comps_view(p@) == candidate_at(
                comps_view(self.cwd@),
                self.depth as int,
            ),
            _ => true,
        }
    }

    pub open spec fn running(self) -> bool {
        self.outcome is None
    }

    /// The search starts at the working directory itself, its deepest
    /// prefix.
    pub fn new(cwd: Vec<String>) -> (s: UpwardSearch)
        ensures
            s.wf(),
            s.running(),
            comps_view(s.cwd@) == comps_view(cwd@),
            s.depth == cwd@.len(),
    {
        let depth = cwd.len();
        UpwardSearch { cwd, depth, outcome: None }
    }

    /// The path to probe next, or nothing once the search is over.
    pub fn next_request(&self) -> (r: Option<Vec<String>>)
        requires
            self.wf(),
        ensures
            match r {
                Some(p) => self.running() && comps_view(p@) == candidate_at(
                    comps_view(self.cwd@),
                    self.depth as int,
                ),
                None => !self.running(),
            },
    {
        match self.outcome {
            Some(_) => None,
            None => Some(prefix_with_marker(&self.cwd, self.depth)),
        }
    }

    /// Answer whether the probed path exists and is a directory. A hit
    /// ends the search at the current depth; a miss moves one ancestor
    /// up, and a miss at the root ends the search with nothing found.
    pub fn report(&mut self, exists: bool)
        requires
            old(self).wf(),
            old(self).running(),
        ensures
            final(self).wf(),
            final(self).cwd == old(self).cwd,
            exists ==> {
                &&& final(self).depth == old(self).depth
                &&& match final(self).outcome {
                    Some(SearchOutcome::Found(p)) => comps_view(p@) == candidate_at(
                        comps_view(old(self).cwd@),
                        old(self).depth as int,
                    ),
                    _ => false,
                }
            },
            !exists && old(self).depth > 0 ==> final(self).running() && final(self).depth
                == old(self).depth - 1,
            !exists && old(self).depth == 0 ==> final(self).outcome == Some(
                SearchOutcome::NotFound,
            ) && final(self).depth == 0,
    {
        if exists {
            let p = prefix_with_marker(&self.cwd, self.depth);
            self.outcome = Some(SearchOutcome::Found(p));
        } else if self.depth == 0 {
            self.outcome = Some(SearchOutcome::NotFound);
        } else {
            self.depth = self.depth - 1;
        }
    }
}

/// Resolve the application data store location: a set and non-empty
/// override takes absolute precedence; otherwise the platform-standard
/// data directory is used; a platform with no convention is a hard
/// error.
pub fn resolve_data_dir(override_dir: Option<String>, platform_dir: Option<String>) -> (r: Result<
    String,
    Error,
>)
    ensures
        match override_dir {
            Some(o) => if o@.len() > 0 {
                r == Ok::<String, Error>(o)
            } else {
                spec_platform_choice(r, platform_dir)
            },
            None => spec_platform_choice(r, platform_dir),
        },
{
    match override_dir {
        Some(o) => {
            if o.as_str().unicode_len() > 0 {
                Ok(o)
            } else {
                match platform_dir {
                    Some(p) => Ok(p),
                    None => Err(Error::ApplicationDirsNotFound),
                }
            }
        },
        None => match platform_dir {
            Some(p) => Ok(p),
            None => Err(Error::ApplicationDirsNotFound),
        },
    }
}

/// Without a usable override, the platform-standard directory decides:
/// its absence is the hard "no application directories" error.
pub open spec fn spec_platform_choice(r: Result<String, Error>, platform_dir: Option<String>) -> bool {
    match platform_dir {
        Some(p) => r == Ok::<String, Error>(p),
        None => r == Err::<String, Error>(Error::ApplicationDirsNotFound),
    }
}

/// The three identifying components the platform-standard application
/// directory is derived from, in order.
pub fn application_parts() -> (r: Vec<String>)
    ensures
        r@.len() == 3,
        r@[0]@ == "io"@,
        r@[1]@ == "libp2p"@,
        r@[2]@ == "workshop"@,
{
    let mut r: Vec<String> = Vec::new();
    r.push("io".to_owned());
    r.push("libp2p".to_owned());
    r.push("workshop".to_owned());
    r
}

/// What materializing a workshop will touch: the workspace store under
/// the working directory, and the copy from the data store into it.
pub struct InitPlan {
    pub workshops_dir: Vec<String>,
    pub source: Vec<String>,
    pub target: Vec<String>,
}

/// Plan the initialization of the working directory for a workshop.
/// Initialization always anchors the `.workshops` store directly under
/// the working directory — deliberately not at the upward-search result.
/// When the data store has no directory for the workshop, the plan is
/// refused outright and nothing is copied.
pub fn init_data_dir(
    cwd: &Vec<String>,
    data_dir: &Vec<String>,
    workshop: &String,
    workshop_exists: bool,
) -> (r: Result<InitPlan, Error>)
    ensures
        workshop_exists ==> match r {
            Ok(plan) => {
                &&& comps_view(plan.workshops_dir@) == comps_view(cwd@).push(workshops_marker())
                &&& comps_view(plan.source@) == comps_view(data_dir@).push(workshop@)
                &&& comps_view(plan.target@) == comps_view(cwd@).push(workshops_marker()).push(
                    workshop@,
                )
            },
            Err(_) => false,
        },
        !workshop_exists ==> r == Err::<InitPlan, Error>(Error::WorkshopDataDirNotFound),
{
    if !workshop_exists {
        return Err(Error::WorkshopDataDirNotFound);
    }
    let mut workshops_dir = clone_components(cwd);
    workshops_dir.push(".workshops".to_owned());
    let mut source = clone_components(data_dir);
    source.push(workshop.clone());
    let mut target = clone_components(&workshops_dir);
    target.push(workshop.clone());
    proof {
        assert(comps_view(workshops_dir@) =~= comps_view(cwd@).push(workshops_marker()));
        assert(comps_view(source@) =~= comps_view(data_dir@).push(workshop@));
        assert(comps_view(target@) =~= comps_view(cwd@).push(workshops_marker()).push(
            workshop@,
        ));
    }
    Ok(InitPlan { workshops_dir, source, target })
}

/// A source directory and the target directory it is being copied to,
/// sharing the same path relative to the two roots.
pub open spec fn corresponds(
    sroot: Seq<Seq<char>>,
    troot: Seq<Seq<char>>,
    s: Seq<Seq<char>>,
    t: Seq<Seq<char>>,
) -> bool {
    &&& s.len() >= sroot.len()
    &&& t.len() >= troot.len()
    &&& s.subrange(0, sroot.len() as int) == sroot
    &&& t.subrange(0, troot.len() as int) == troot
    &&& s.skip(sroot.len() as int) == t.skip(troot.len() as int)
}

/// The recursive copy of a workshop tree as a step machine. The caller
/// takes a directory pair with `next_dir`, creates the target directory,
/// lists the source directory, reports each entry, and closes the pair
/// with `dir_done`; file entries accumulate as copy instructions in
/// `copies`. Every target ever named lies under the target root, so the
/// source store is never written.
pub struct CopyTree {
    pub source_root: Vec<String>,
    pub target_root: Vec<String>,
    pub pending: Vec<(Vec<String>, Vec<String>)>,
    pub current: Option<(Vec<String>, Vec<String>)>,
    pub copies: Vec<(Vec<String>, Vec<String>)>,
}

impl CopyTree {
    pub open spec fn roots(self) -> (Seq<Seq<char>>, Seq<Seq<char>>) {
        (comps_view(self.source_root@), comps_view(self.target_root@))
    }

    pub open spec fn pair_ok(self, p: (Vec<String>, Vec<String>)) -> bool {
        corresponds(self.roots().0, self.roots().1, comps_view(p.0@), comps_view(p.1@))
    }

    pub open spec fn wf(self) -> bool {
        &&& forall|i: int|
            0 <= i < self.pending@.len() ==> self.pair_ok(#[trigger] self.pending@[i])
        &&& forall|i: int| 0 <= i < self.copies@.len() ==> self.pair_ok(#[trigger] self.copies@[i])
        &&& match self.current {
            Some(p) => self.pair_ok(p),
            None => true,
        }
    }

    /// Copying starts with the two roots themselves as the only pair.
    pub fn new(source_root: Vec<String>, target_root: Vec<String>) -> (m: CopyTree)
        ensures
            m.wf(),
            m.current is None,
            m.copies@.len() == 0,
            m.pending@.len() == 1,
            comps_view(m.pending@[0].0@) == comps_view(source_root@),
            comps_view(m.pending@[0].1@) == comps_view(target_root@),
            comps_view(m.source_root@) == comps_view(source_root@),
            comps_view(m.target_root@) == comps_view(target_root@),
    {
        let s = clone_components(&source_root);
        let t = clone_components(&target_root);
        let mut pending: Vec<(Vec<String>, Vec<String>)> = Vec::new();
        pending.push((s, t));
        let m = CopyTree { source_root, target_root, pending, current: None, copies: Vec::new() };
        proof {
            let p = m.pending@[0];
            assert(comps_view(p.0@).subrange(0, m.roots().0.len() as int) =~= m.roots().0);
            assert(comps_view(p.1@).subrange(0, m.roots().1.len() as int) =~= m.roots().1);
            assert(comps_view(p.0@).skip(m.roots().0.len() as int) =~= comps_view(p.1@).skip(
                m.roots().1.len() as int,
            ));
        }
        m
    }

    /// Take the next directory pair to work on, or nothing once no
    /// directory is left and the walk is complete. The caller creates
    /// the target directory of the returned pair and lists its source
    /// directory.
    pub fn next_dir(&mut self) -> (r: Option<(Vec<String>, Vec<String>)>)
        requires
            old(self).wf(),
            old(self).current is None,
        ensures
            final(self).wf(),
            final(self).source_root == old(self).source_root,
            final(self).target_root == old(self).target_root,
            final(self).copies == old(self).copies,
            match r {
                Some(p) => {
                    &&& old(self).pending@.len() > 0
                    &&& comps_view(p.0@) == comps_view(old(self).pending@.last().0@)
                    &&& comps_view(p.1@) == comps_view(old(self).pending@.last().1@)
                    &&& final(self).pair_ok(p)
                    &&& match final(self).current {
                        Some(c) => comps_view(c.0@) == comps_view(p.0@) && comps_view(c.1@)
                            == comps_view(p.1@),
                        None => false,
                    }
                    &&& final(self).pending@ == old(self).pending@.drop_last()
                },
                None => {
                    &&& old(self).pending@.len() == 0
                    &&& final(self).current is None
                    &&& final(self).pending == old(self).pending
                },
            },
    {
        if self.pending.len() == 0 {
            return None;
        }
        let p = self.pending.pop().unwrap();
        let s = clone_components(&p.0);
        let t = clone_components(&p.1);
        self.current = Some(p);
        Some((s, t))
    }

    /// Report one entry of the current source directory: a directory
    /// entry queues the corresponding child pair for its own walk, a
    /// file entry becomes one copy instruction.
    pub fn report_entry(&mut self, name: String, is_dir: bool)
        requires
            old(self).wf(),
            old(self).current is Some,
        ensures
            final(self).wf(),
            final(self).source_root == old(self).source_root,
            final(self).target_root == old(self).target_root,
            final(self).current == old(self).current,
            ({
                let cur = old(self).current.unwrap();
                let news = comps_view(cur.0@).push(name@);
                let newt = comps_view(cur.1@).push(name@);
                if is_dir {
                    &&& final(self).copies == old(self).copies
                    &&& final(self).pending@.len() == old(self).pending@.len() + 1
                    &&& final(self).pending@.drop_last() == old(self).pending@
                    &&& comps_view(final(self).pending@.last().0@) == news
                    &&& comps_view(final(self).pending@.last().1@) == newt
                } else {
                    &&& final(self).pending == old(self).pending
                    &&& final(self).copies@.len() == old(self).copies@.len() + 1
                    &&& final(self).copies@.drop_last() == old(self).copies@
                    &&& comps_view(final(self).copies@.last().0@) == news
                    &&& comps_view(final(self).copies@.last().1@) == newt
                }
            }),
    {
        let (cs, ct) = match &self.current {
            Some(c) => (clone_components(&c.0), clone_components(&c.1)),
            None => unreached(),
        };
        let mut s = cs;
        let mut t = ct;
        s.push(name.clone());
        t.push(name);
        proof {
            let cur = old(self).current.unwrap();
            assert(comps_view(s@) =~= comps_view(cur.0@).push(name@));
            assert(comps_view(t@) =~= comps_view(cur.1@).push(name@));
            let sr = self.roots().0;
            let tr = self.roots().1;
            assert(comps_view(s@).subrange(0, sr.len() as int) =~= comps_view(
                cur.0@,
            ).subrange(0, sr.len() as int));
            assert(comps_view(t@).subrange(0, tr.len() as int) =~= comps_view(
                cur.1@,
            ).subrange(0, tr.len() as int));
            assert(comps_view(s@).skip(sr.len() as int) =~= comps_view(cur.0@).skip(
                sr.len() as int,
            ).push(name@));
            assert(comps_view(t@).skip(tr.len() as int) =~= comps_view(cur.1@).skip(
                tr.len() as int,
            ).push(name@));
        }
        if is_dir {
            self.pending.push((s, t));
            proof {
                assert(final(self).pending@.drop_last() =~= old(self).pending@);
            }
        } else {
            self.copies.push((s, t));
            proof {
                assert(final(self).copies@.drop_last() =~= old(self).copies@);
            }
        }
    }

    /// Close the current directory once all its entries are reported.
    pub fn dir_done(&mut self)
        requires
            old(self).wf(),
        ensures
            final(self).wf(),
            final(self).current is None,
            final(self).source_root == old(self).source_root,
            final(self).target_root == old(self).target_root,
            final(self).pending == old(self).pending,
            final(self).copies == old(self).copies,
    {
        self.current = None;
    }

    /// Whether the walk is complete: no directory is open or queued.
    pub fn done(&self) -> (r: bool)
        ensures
            r == (self.current is None && self.pending@.len() == 0),
    {
        match &self.current {
            Some(_) => false,
            None => self.pending.len() == 0,
        }
    }
}

/// Law: every copy instruction the machine ever emits reads from under
/// the source root and writes to under the target root, at the same
/// relative path — materializing never mutates the application data
/// store.
pub proof fn lemma_copy_stays_under_roots(m: CopyTree, i: int)
    requires
        m.wf(),
        0 <= i < m.copies@.len(),
    ensures
        comps_view(m.copies@[i].0@).subrange(0, m.roots().0.len() as int) == m.roots().0,
        comps_view(m.copies@[i].1@).subrange(0, m.roots().1.len() as int) == m.roots().1,
        comps_view(m.copies@[i].0@).skip(m.roots().0.len() as int) == comps_view(
            m.copies@[i].1@,
        ).skip(m.roots().1.len() as int),
{
}

} // verus!
