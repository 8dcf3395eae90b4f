use vstd::prelude::*;
use vstd::string::StringSliceAdditionalSpecFns;

use crate::error::Error;
use crate::version::ParseRule;
use crate::version::Version;
use crate::version::meets_minimum;
use crate::version::parse_tool_version;
use crate::version::spec_parse_output;
use crate::version::spec_view_le;
use crate::version::version_view;

verus! {

/// Operating-system tag. Candidate tables are data conditioned on this
/// tag rather than on the build target, so every platform's table can be
/// exercised anywhere.
#[derive(Clone, Copy, PartialEq, Eq, Structural, Debug)]
pub enum Os {
    Windows,
    MacOs,
    Linux,
    Other,
}

/// One executable to try during discovery: a bare command name or an
/// absolute path, either open to all platforms or restricted to one.
pub struct Candidate {
    pub name: String,
    pub only_on: Option<Os>,
}

/// Whether a candidate restricted to `only_on` is attempted on `os`.
pub open spec fn spec_applies(only_on: Option<Os>, os: Os) -> bool {
    match only_on {
        None => true,
        Some(o) => o == os,
    }
}

pub open spec fn spec_is_unix(os: Os) -> bool {
    os == Os::MacOs || os == Os::Linux
}

/// A candidate list as plain values: each entry's name and platform tag.
pub open spec fn table_view(s: Seq<Candidate>) -> Seq<(Seq<char>, Option<Os>)> {
    Seq::new(s.len(), |i: int| (s[i].name@, s[i].only_on))
}

/// The entries of a table that apply on the given platform, in order.
pub open spec fn spec_applicable(t: Seq<(Seq<char>, Option<Os>)>, os: Os) -> Seq<
    (Seq<char>, Option<Os>),
>
    decreases t.len(),
{
    if t.len() == 0 {
        Seq::empty()
    } else {
        let rest = spec_applicable(t.drop_last(), os);
        if spec_applies(t.last().1, os) {
            rest.push(t.last())
        } else {
            rest
        }
    }
}

/// A candidate list prepared from a table: the same entries with the
/// same tags, each name kept as it is except that on Unix-like
/// platforms a name with a leading `~` may instead be some home
/// directory followed by the name's tail after the tilde.
pub open spec fn spec_prepared(
    got: Seq<(Seq<char>, Option<Os>)>,
    table: Seq<(Seq<char>, Option<Os>)>,
    os: Os,
) -> bool {
    &&& got.len() == table.len()
    &&& forall|i: int| 0 <= i < table.len() ==> (#[trigger] got[i]).1 == table[i].1
    &&& forall|i: int|
        0 <= i < table.len() && (!spec_is_unix(os) || table[i].0.len() == 0 || table[i].0[0]
            != '~') ==> (#[trigger] got[i]).0 == table[i].0
    &&& forall|i: int|
        0 <= i < table.len() ==> ((#[trigger] got[i]).0 == table[i].0 || (table[i].0.len() >= 1
            && table[i].0[0] == '~' && exists|home: Seq<char>|
            got[i].0 == home + table[i].0.skip(1)))
}

/// Keep exactly the candidates that apply on the given platform, in
/// their original order.
pub fn applicable_candidates(candidates: Vec<Candidate>, os: Os) -> (r: Vec<Candidate>)
    ensures
        r@ == candidates@.filter(|c: Candidate| spec_applies(c.only_on, os)),
{
    broadcast use vstd::seq_lib::group_seq_properties;

    let mut r: Vec<Candidate> = Vec::new();
    let mut i: usize = 0;
    proof {
        assert(candidates@.take(0).filter(|c: Candidate| spec_applies(c.only_on, os)) =~= Seq::<
            Candidate,
        >::empty());
    }
    while i < candidates.len()
        invariant
            i <= candidates@.len(),
            r@ == candidates@.take(i as int).filter(|c: Candidate| spec_applies(c.only_on, os)),
        decreases candidates@.len() - i,
    {
        let keep = match candidates[i].only_on {
            None => true,
            Some(o) => o == os,
        };
        proof {
            let t = candidates@.take(i as int + 1);
            assert(t.drop_last() =~= candidates@.take(i as int));
            assert(t.last() == candidates@[i as int]);
            reveal(Seq::filter);
        }
        if keep {
            let c = Candidate {
                name: candidates[i].name.clone(),
                only_on: candidates[i].only_on,
            };
            r.push(c);
            proof {
                assert(r@ =~= candidates@.take(i as int + 1).filter(
                    |c: Candidate| spec_applies(c.only_on, os),
                ));
            }
        } else {
            proof {
                assert(r@ =~= candidates@.take(i as int + 1).filter(
                    |c: Candidate| spec_applies(c.only_on, os),
                ));
            }
        }
        i = i + 1;
    }
    proof {
        assert(candidates@.take(candidates@.len() as int) =~= candidates@);
    }
    r
}

/// Relies on `shellexpand::tilde`: an input that does not start with `~`
/// comes back unchanged, and every outcome is either the input itself or
/// the home directory followed by the input after the tilde — the tail
/// after a leading `~` is always preserved.
#[verifier::external_body]
fn expand_tilde(s: &String) -> (r: String)
    ensures
        s@.len() == 0 || s@[0] != '~' ==> r@ == s@,
        r@ == s@ || (s@.len() >= 1 && s@[0] == '~' && exists|home: Seq<char>| r@ == home + s@.skip(
            1,
        )),
{
    shellexpand::tilde(s.as_str()).into_owned()
}

/// On Unix-like platforms, expand a leading `~` in every candidate name
/// to the user's home directory; elsewhere leave all names alone.
pub fn expand_candidates(candidates: &mut Vec<Candidate>, os: Os)
    ensures
        final(candidates)@.len() == old(candidates)@.len(),
        forall|i: int| #![trigger final(candidates)@[i]]
            0 <= i < old(candidates)@.len() ==> final(candidates)@[i].only_on
                == old(candidates)@[i].only_on,
        forall|i: int| #![trigger final(candidates)@[i]]
            0 <= i < old(candidates)@.len() && (!(os == Os::MacOs || os == Os::Linux)
                || old(candidates)@[i].name@.len() == 0 || old(candidates)@[i].name@[0] != '~')
                ==> final(candidates)@[i].name@ == old(candidates)@[i].name@,
        forall|i: int| #![trigger final(candidates)@[i]]
            0 <= i < old(candidates)@.len() ==> (final(candidates)@[i].name@
                == old(candidates)@[i].name@ || (old(candidates)@[i].name@.len() >= 1
                && old(candidates)@[i].name@[0] == '~' && exists|home: Seq<char>|
                final(candidates)@[i].name@ == home + old(candidates)@[i].name@.skip(1))),
{
    let unix = match os {
        Os::MacOs => true,
        Os::Linux => true,
        _ => false,
    };
    if !unix {
        return ;
    }
    let mut i: usize = 0;
    while i < candidates.len()
        invariant
            i <= candidates@.len(),
            candidates@.len() == old(candidates)@.len(),
            forall|j: int| #![trigger candidates@[j]]
                0 <= j < candidates@.len() ==> candidates@[j].only_on
                    == old(candidates)@[j].only_on,
            forall|j: int| #![trigger candidates@[j]]
                i <= j < candidates@.len() ==> candidates@[j].name@
                    == old(candidates)@[j].name@,
            forall|j: int| #![trigger candidates@[j]]
                0 <= j < i && (old(candidates)@[j].name@.len() == 0
                    || old(candidates)@[j].name@[0] != '~')
                    ==> candidates@[j].name@ == old(candidates)@[j].name@,
            forall|j: int| #![trigger candidates@[j]]
                0 <= j < i ==> (candidates@[j].name@ == old(candidates)@[j].name@ || (old(
                    candidates,
                )@[j].name@.len() >= 1 && old(candidates)@[j].name@[0] == '~' && exists|
                    home: Seq<char>,
                |
                    candidates@[j].name@ == home + old(candidates)@[j].name@.skip(1))),
        decreases candidates@.len() - i,
    {
        let expanded = expand_tilde(&candidates[i].name);
        let tag = candidates[i].only_on;
        candidates.set(i, Candidate { name: expanded, only_on: tag });
        i = i + 1;
    }
}

proof fn lemma_applicable_view(s: Seq<Candidate>, os: Os)
    ensures
        table_view(s.filter(|c: Candidate| spec_applies(c.only_on, os))) == spec_applicable(
            table_view(s),
            os,
        ),
    decreases s.len(),
{
    reveal(Seq::filter);
    let pred = |c: Candidate| spec_applies(c.only_on, os);
    if s.len() == 0 {
        assert(table_view(s.filter(pred)) =~= spec_applicable(table_view(s), os));
    } else {
        lemma_applicable_view(s.drop_last(), os);
        assert(table_view(s).drop_last() =~= table_view(s.drop_last()));
        assert(table_view(s).last() == (s.last().name@, s.last().only_on));
        if pred(s.last()) {
            assert(s.filter(pred) == s.drop_last().filter(pred).push(s.last()));
            assert(table_view(s.drop_last().filter(pred).push(s.last())) =~= table_view(
                s.drop_last().filter(pred),
            ).push((s.last().name@, s.last().only_on)));
        } else {
            assert(s.filter(pred) == s.drop_last().filter(pred));
        }
        assert(table_view(s.filter(pred)) =~= spec_applicable(table_view(s), os));
    }
}

/// Prepare a candidate table for probing on the given platform: keep
/// the applicable entries in order and expand leading tildes on
/// Unix-like platforms.
fn prepare_candidates(table: Vec<Candidate>, os: Os) -> (r: Vec<Candidate>)
    ensures
        spec_prepared(table_view(r@), spec_applicable(table_view(table@), os), os),
{
    let ghost tseq = table@;
    let ghost tv = table_view(table@);
    let mut c = applicable_candidates(table, os);
    proof {
        lemma_applicable_view(tseq, os);
    }
    let ghost t = spec_applicable(tv, os);
    let ghost before = c@;
    proof {
        assert(table_view(before) == t);
        assert forall|i: int| 0 <= i < t.len() implies (#[trigger] t[i]).0 == before[i].name@
            && t[i].1 == before[i].only_on by {
            assert(table_view(before)[i] == (before[i].name@, before[i].only_on));
        }
    }
    expand_candidates(&mut c, os);
    proof {
        let got = table_view(c@);
        assert forall|i: int| 0 <= i < t.len() implies (#[trigger] got[i]).1 == t[i].1 by {
            assert(got[i] == (c@[i].name@, c@[i].only_on));
            assert(c@[i].only_on == before[i].only_on);
        }
        assert forall|i: int|
            0 <= i < t.len() && (!spec_is_unix(os) || t[i].0.len() == 0 || t[i].0[0]
                != '~') implies (#[trigger] got[i]).0 == t[i].0 by {
            assert(got[i] == (c@[i].name@, c@[i].only_on));
            assert(t[i].0 == before[i].name@);
        }
        assert forall|i: int|
            0 <= i < t.len() implies ((#[trigger] got[i]).0 == t[i].0 || (t[i].0.len() >= 1
                && t[i].0[0] == '~' && exists|home: Seq<char>|
                got[i].0 == home + t[i].0.skip(1))) by {
            assert(got[i] == (c@[i].name@, c@[i].only_on));
            assert(t[i].0 == before[i].name@);
        }
    }
    c
}

/// What a probe attempt reported back: the launch failed outright, or
/// the process exited with the given status and captured output.
pub enum ProbeEvent {
    LaunchFailed,
    Exited { success: bool, output: Vec<u8> },
}

/// How probing ended: the first qualifying candidate with its parsed
/// version, or no candidate at all.
pub enum ProbeOutcome {
    Found { index: usize, name: String, version: Version },
    NotFound,
}

/// The version a probe event qualifies with: the process must have been
/// launched, exited successfully, its output must parse under the rule,
/// and the parsed version must be at least the minimum.
pub open spec fn spec_qualifying(
    event: ProbeEvent,
    rule: ParseRule,
    min: (u64, u64, u64, Seq<Seq<u8>>),
) -> Option<(u64, u64, u64, Seq<Seq<u8>>)> {
    match event {
        ProbeEvent::LaunchFailed => None,
        ProbeEvent::Exited { success, output } => if !success {
            None
        } else {
            match spec_parse_output(output@, rule) {
                None => None,
                Some(v) => if spec_view_le(min, v) {
                    Some(v)
                } else {
                    None
                },
            }
        },
    }
}

/// Ordered fallback probing as a step machine. The caller launches the
/// candidate named by `next_request` with the tool's version flag and
/// reports what happened; the machine walks the list strictly in order
/// and stops at the first qualifying candidate.
pub struct Prober {
    pub candidates: Vec<Candidate>,
    pub min_version: Version,
    pub rule: ParseRule,
    pub next_index: usize,
    pub outcome: Option<ProbeOutcome>,
}

impl Prober {
    /// While probing runs, `next_index` points into the list; a recorded
    /// find names the candidate it came from and carries a version at or
    /// above the minimum.
    pub open spec fn wf(self) -> bool {
        &&& match self.outcome {
            None => self.next_index < self.candidates@.len(),
            Some(ProbeOutcome::Found { index, name, version }) => {
                &&& index < self.candidates@.len()
                &&& name@ == self.candidates@[index as int].name@
                &&& spec_view_le(version_view(self.min_version), version_view(version))
            },
            Some(ProbeOutcome::NotFound) => self.next_index == self.candidates@.len(),
        }
        &&& self.next_index <= self.candidates@.len()
    }

    pub open spec fn running(self) -> bool {
        self.outcome is None
    }

    /// Probing over an empty list is finished at once, with nothing
    /// found; otherwise it starts at the first candidate.
    pub fn new(candidates: Vec<Candidate>, min_version: Version, rule: ParseRule) -> (p: Prober)
        ensures
            p.wf(),
            p.candidates@ == candidates@,
            p.min_version == min_version,
            p.rule == rule,
            p.next_index == 0,
            p.outcome == if candidates@.len() == 0 {
                Some(ProbeOutcome::NotFound)
            } else {
                None::<ProbeOutcome>
            },
    {
        let empty = candidates.len() == 0;
        Prober {
            candidates,
            min_version,
            rule,
            next_index: 0,
            outcome: if empty {
                Some(ProbeOutcome::NotFound)
            } else {
                None
            },
        }
    }

    /// The candidate to launch next, or nothing once probing is done: a
    /// finished machine never asks for another attempt.
    pub fn next_request(&self) -> (r: Option<String>)
        requires
            self.wf(),
        ensures
            match r {
                Some(name) => self.running()
                    && name@ == self.candidates@[self.next_index as int].name@,
                None => !self.running(),
            },
    {
        match self.outcome {
            Some(_) => None,
            None => Some(self.candidates[self.next_index].name.clone()),
        }
    }

    /// Consume the report of the attempt on the current candidate. A
    /// qualifying report ends probing at this candidate, with its parsed
    /// version; any other report moves to the next candidate, and past
    /// the last one probing ends with nothing found.
    pub fn report(&mut self, event: ProbeEvent)
        requires
            old(self).wf(),
            old(self).running(),
        ensures
            final(self).wf(),
            final(self).candidates == old(self).candidates,
            final(self).min_version == old(self).min_version,
            final(self).rule == old(self).rule,
            match spec_qualifying(event, old(self).rule, version_view(old(self).min_version)) {
                Some(vv) => {
                    &&& final(self).next_index == old(self).next_index
                    &&& match final(self).outcome {
                        Some(ProbeOutcome::Found { index, name, version }) => {
                            &&& index == old(self).next_index
                            &&& name@ == old(self).candidates@[index as int].name@
                            &&& version_view(version) == vv
                        },
                        _ => false,
                    }
                },
                None => {
                    &&& final(self).next_index == old(self).next_index + 1
                    &&& final(self).outcome == (if old(self).next_index + 1
                        == old(self).candidates@.len() {
                        Some(ProbeOutcome::NotFound)
                    } else {
                        None::<ProbeOutcome>
                    })
                },
            },
    {
        let qualified: Option<Version> = match event {
            ProbeEvent::LaunchFailed => None,
            ProbeEvent::Exited { success, output } => if success {
                match parse_tool_version(output.as_slice(), self.rule) {
                    Some(v) => if meets_minimum(&v, &self.min_version) {
                        Some(v)
                    } else {
                        None
                    },
                    None => None,
                }
            } else {
                None
            },
        };
        match qualified {
            Some(version) => {
                let name = self.candidates[self.next_index].name.clone();
                self.outcome = Some(
                    ProbeOutcome::Found { index: self.next_index, name, version },
                );
            },
            None => {
                let n = self.candidates.len();
                assert(self.next_index < n);
                self.next_index = self.next_index + 1;
                if self.next_index == n {
                    self.outcome = Some(ProbeOutcome::NotFound);
                }
            },
        }
    }

    /// The outcome once probing is done.
    pub fn outcome_ref(&self) -> (r: &ProbeOutcome)
        requires
            !self.running(),
        ensures
            self.outcome == Some(*r),
    {
        match &self.outcome {
            Some(o) => o,
            None => unreached(),
        }
    }
}

/// Law: a recorded find never carries a version below the minimum
/// requirement — whatever events were reported, in whatever order.
pub proof fn lemma_found_meets_minimum(p: Prober)
    requires
        p.wf(),
    ensures
        match p.outcome {
            Some(ProbeOutcome::Found { index, name, version }) => spec_view_le(
                version_view(p.min_version),
                version_view(version),
            ),
            _ => true,
        },
{
}

fn cand(name: &str, only_on: Option<Os>) -> (c: Candidate)
    ensures
        c.name@ == name@,
        c.only_on == only_on,
{
    Candidate { name: name.to_owned(), only_on }
}

/// The interpreter candidate table as plain values: the cross-platform
/// command names first, then the platform-specific default install
/// locations, in probing order.
pub open spec fn spec_python_table() -> Seq<(Seq<char>, Option<Os>)> {
    seq![
        ("python3"@, None),
        ("python"@, None),
        ("py"@, None),
        ("C:\\Python39\\python.exe"@, Some(Os::Windows)),
        ("C:\\Python38\\python.exe"@, Some(Os::Windows)),
        ("C:\\Program Files\\Python39\\python.exe"@, Some(Os::Windows)),
        ("C:\\Program Files\\Python38\\python.exe"@, Some(Os::Windows)),
        (
            "C:\\Users\\%USERNAME%\\AppData\\Local\\Programs\\Python\\Python39\\python.exe"@,
            Some(Os::Windows),
        ),
        (
            "C:\\Users\\%USERNAME%\\AppData\\Local\\Programs\\Python\\Python38\\python.exe"@,
            Some(Os::Windows),
        ),
        ("/usr/local/bin/python3"@, Some(Os::MacOs)),
        ("/opt/homebrew/bin/python3"@, Some(Os::MacOs)),
        ("/usr/bin/python3"@, Some(Os::MacOs)),
        ("/opt/local/bin/python3"@, Some(Os::MacOs)),
        ("~/.pyenv/shims/python3"@, Some(Os::MacOs)),
        ("/usr/bin/python3"@, Some(Os::Linux)),
        ("/usr/local/bin/python3"@, Some(Os::Linux)),
        ("/bin/python3"@, Some(Os::Linux)),
        ("~/.pyenv/shims/python3"@, Some(Os::Linux)),
    ]
}

/// The interpreter candidate table.
pub fn python_candidates() -> (r: Vec<Candidate>)
    ensures
        table_view(r@) == spec_python_table(),
{
    let mut r: Vec<Candidate> = Vec::new();
    r.push(cand("python3", None));
    r.push(cand("python", None));
    r.push(cand("py", None));
    r.push(cand("C:\\Python39\\python.exe", Some(Os::Windows)));
    r.push(cand("C:\\Python38\\python.exe", Some(Os::Windows)));
    r.push(cand("C:\\Program Files\\Python39\\python.exe", Some(Os::Windows)));
    r.push(cand("C:\\Program Files\\Python38\\python.exe", Some(Os::Windows)));
    r.push(
        cand(
            "C:\\Users\\%USERNAME%\\AppData\\Local\\Programs\\Python\\Python39\\python.exe",
            Some(Os::Windows),
        ),
    );
    r.push(
        cand(
            "C:\\Users\\%USERNAME%\\AppData\\Local\\Programs\\Python\\Python38\\python.exe",
            Some(Os::Windows),
        ),
    );
    r.push(cand("/usr/local/bin/python3", Some(Os::MacOs)));
    r.push(cand("/opt/homebrew/bin/python3", Some(Os::MacOs)));
    r.push(cand("/usr/bin/python3", Some(Os::MacOs)));
    r.push(cand("/opt/local/bin/python3", Some(Os::MacOs)));
    r.push(cand("~/.pyenv/shims/python3", Some(Os::MacOs)));
    r.push(cand("/usr/bin/python3", Some(Os::Linux)));
    r.push(cand("/usr/local/bin/python3", Some(Os::Linux)));
    r.push(cand("/bin/python3", Some(Os::Linux)));
    r.push(cand("~/.pyenv/shims/python3", Some(Os::Linux)));
    proof {
        assert(table_view(r@) =~= spec_python_table());
    }
    r
}

/// The container-runtime candidate table as plain values, probed for an
/// integrated compose subcommand.
pub open spec fn spec_docker_table() -> Seq<(Seq<char>, Option<Os>)> {
    seq![
        ("docker"@, None),
        ("docker.exe"@, Some(Os::Windows)),
        ("C:\\Program Files\\Docker\\Docker\\resources\\bin\\docker.exe"@, Some(Os::Windows)),
        ("/usr/local/bin/docker"@, Some(Os::MacOs)),
        ("/opt/homebrew/bin/docker"@, Some(Os::MacOs)),
        ("/Applications/Docker.app/Contents/Resources/bin/docker"@, Some(Os::MacOs)),
        ("/usr/bin/docker"@, Some(Os::Linux)),
        ("/usr/local/bin/docker"@, Some(Os::Linux)),
        ("/snap/bin/docker"@, Some(Os::Linux)),
    ]
}

/// The container-runtime candidate table.
pub fn docker_candidates() -> (r: Vec<Candidate>)
    ensures
        table_view(r@) == spec_docker_table(),
{
    let mut r: Vec<Candidate> = Vec::new();
    r.push(cand("docker", None));
    r.push(cand("docker.exe", Some(Os::Windows)));
    r.push(
        cand("C:\\Program Files\\Docker\\Docker\\resources\\bin\\docker.exe", Some(Os::Windows)),
    );
    r.push(cand("/usr/local/bin/docker", Some(Os::MacOs)));
    r.push(cand("/opt/homebrew/bin/docker", Some(Os::MacOs)));
    r.push(cand("/Applications/Docker.app/Contents/Resources/bin/docker", Some(Os::MacOs)));
    r.push(cand("/usr/bin/docker", Some(Os::Linux)));
    r.push(cand("/usr/local/bin/docker", Some(Os::Linux)));
    r.push(cand("/snap/bin/docker", Some(Os::Linux)));
    proof {
        assert(table_view(r@) =~= spec_docker_table());
    }
    r
}

/// The standalone compose-tool candidate table as plain values.
pub open spec fn spec_docker_compose_table() -> Seq<(Seq<char>, Option<Os>)> {
    seq![
        ("docker-compose"@, None),
        ("docker-compose.exe"@, Some(Os::Windows)),
        (
            "C:\\Program Files\\Docker\\Docker\\resources\\bin\\docker-compose.exe"@,
            Some(Os::Windows),
        ),
        ("C:\\ProgramData\\DockerDesktop\\version-bin\\docker-compose.exe"@, Some(Os::Windows)),
        ("/usr/local/bin/docker-compose"@, Some(Os::MacOs)),
        ("/opt/homebrew/bin/docker-compose"@, Some(Os::MacOs)),
        ("/Applications/Docker.app/Contents/Resources/bin/docker-compose"@, Some(Os::MacOs)),
        ("/usr/bin/docker-compose"@, Some(Os::Linux)),
        ("/usr/local/bin/docker-compose"@, Some(Os::Linux)),
        ("/snap/bin/docker-compose"@, Some(Os::Linux)),
    ]
}

/// The standalone compose-tool candidate table.
pub fn docker_compose_candidates() -> (r: Vec<Candidate>)
    ensures
        table_view(r@) == spec_docker_compose_table(),
{
    let mut r: Vec<Candidate> = Vec::new();
    r.push(cand("docker-compose", None));
    r.push(cand("docker-compose.exe", Some(Os::Windows)));
    r.push(
        cand(
            "C:\\Program Files\\Docker\\Docker\\resources\\bin\\docker-compose.exe",
            Some(Os::Windows),
        ),
    );
    r.push(
        cand("C:\\ProgramData\\DockerDesktop\\version-bin\\docker-compose.exe", Some(Os::Windows)),
    );
    r.push(cand("/usr/local/bin/docker-compose", Some(Os::MacOs)));
    r.push(cand("/opt/homebrew/bin/docker-compose", Some(Os::MacOs)));
    r.push(
        cand("/Applications/Docker.app/Contents/Resources/bin/docker-compose", Some(Os::MacOs)),
    );
    r.push(cand("/usr/bin/docker-compose", Some(Os::Linux)));
    r.push(cand("/usr/local/bin/docker-compose", Some(Os::Linux)));
    r.push(cand("/snap/bin/docker-compose", Some(Os::Linux)));
    proof {
        assert(table_view(r@) =~= spec_docker_compose_table());
    }
    r
}

/// Build the interpreter prober: parse the minimum requirement — an
/// unparsable one is the same "no interpreter" failure the probing
/// itself would end in — then take the platform's candidates, expanded,
/// under the whitespace-delimited parse rule.
pub fn python_prober(min_version: &str, os: Os) -> (r: Result<Prober, Error>)
    ensures
        match r {
            Ok(p) => {
                &&& p.wf()
                &&& p.rule == ParseRule::LastSpace
                &&& crate::version::spec_version_of(min_version.spec_bytes()) == Some(
                    version_view(p.min_version),
                )
                &&& spec_prepared(
                    table_view(p.candidates@),
                    spec_applicable(spec_python_table(), os),
                    os,
                )
                &&& p.next_index == 0
                &&& p.outcome == (if spec_applicable(spec_python_table(), os).len() == 0 {
                    Some(ProbeOutcome::NotFound)
                } else {
                    None::<ProbeOutcome>
                })
            },
            Err(e) => e == Error::NoPythonExecutable && crate::version::spec_version_of(
                min_version.spec_bytes(),
            ) is None,
        },
{
    let min = match crate::version::parse_version(min_version.as_bytes()) {
        Some(v) => v,
        None => {
            return Err(Error::NoPythonExecutable);
        },
    };
    let c = prepare_candidates(python_candidates(), os);
    proof {
        assert(c@.len() == table_view(c@).len());
        assert(table_view(c@).len() == spec_applicable(spec_python_table(), os).len());
    }
    Ok(Prober::new(c, min, ParseRule::LastSpace))
}

/// Build the two compose probers, tried in order: first the container
/// runtime's integrated compose subcommand (its version output carries
/// the `v`-delimited form), then the standalone tool (whitespace
/// delimited). An unparsable minimum is the "no compose tool" failure.
pub fn docker_compose_probers(min_version: &str, os: Os) -> (r: Result<(Prober, Prober), Error>)
    ensures
        match r {
            Ok(ps) => {
                &&& ps.0.wf()
                &&& ps.0.rule == ParseRule::LastV
                &&& crate::version::spec_version_of(min_version.spec_bytes()) == Some(
                    version_view(ps.0.min_version),
                )
                &&& spec_prepared(
                    table_view(ps.0.candidates@),
                    spec_applicable(spec_docker_table(), os),
                    os,
                )
                &&& ps.0.next_index == 0
                &&& ps.0.outcome == (if spec_applicable(spec_docker_table(), os).len() == 0 {
                    Some(ProbeOutcome::NotFound)
                } else {
                    None::<ProbeOutcome>
                })
                &&& ps.1.wf()
                &&& ps.1.rule == ParseRule::LastSpace
                &&& version_view(ps.1.min_version) == version_view(ps.0.min_version)
                &&& spec_prepared(
                    table_view(ps.1.candidates@),
                    spec_applicable(spec_docker_compose_table(), os),
                    os,
                )
                &&& ps.1.next_index == 0
                &&& ps.1.outcome == (if spec_applicable(spec_docker_compose_table(), os).len()
                    == 0 {
                    Some(ProbeOutcome::NotFound)
                } else {
                    None::<ProbeOutcome>
                })
            },
            Err(e) => e == Error::NoDockerComposeExecutable && crate::version::spec_version_of(
                min_version.spec_bytes(),
            ) is None,
        },
{
    let min = match crate::version::parse_version(min_version.as_bytes()) {
        Some(v) => v,
        None => {
            return Err(Error::NoDockerComposeExecutable);
        },
    };
    let min2 = match crate::version::parse_version(min_version.as_bytes()) {
        Some(v) => v,
        None => {
            return Err(Error::NoDockerComposeExecutable);
        },
    };
    let plugin = prepare_candidates(docker_candidates(), os);
    let standalone = prepare_candidates(docker_compose_candidates(), os);
    proof {
        assert(plugin@.len() == table_view(plugin@).len());
        assert(table_view(plugin@).len() == spec_applicable(spec_docker_table(), os).len());
        assert(standalone@.len() == table_view(standalone@).len());
        assert(table_view(standalone@).len() == spec_applicable(
            spec_docker_compose_table(),
            os,
        ).len());
    }
    let p0 = Prober::new(plugin, min, ParseRule::LastV);
    let p1 = Prober::new(standalone, min2, ParseRule::LastSpace);
    Ok((p0, p1))
}

/// Turn the interpreter probing outcome into the caller's result: the
/// found candidate's name, or the "no interpreter" failure.
pub fn choose_python(outcome: ProbeOutcome) -> (r: Result<String, Error>)
    ensures
        match outcome {
            ProbeOutcome::Found { index, name, version } => r == Ok::<String, Error>(name),
            ProbeOutcome::NotFound => r == Err::<String, Error>(Error::NoPythonExecutable),
        },
{
    match outcome {
        ProbeOutcome::Found { index: _, name, version: _ } => Ok(name),
        ProbeOutcome::NotFound => Err(Error::NoPythonExecutable),
    }
}

/// Turn the two compose probing outcomes into the caller's result: the
/// integrated plugin's find wins outright, the standalone tool's find
/// is taken only after the plugin found nothing, and when both found
/// nothing the tool is missing.
pub fn choose_docker_compose(plugin: ProbeOutcome, standalone: ProbeOutcome) -> (r: Result<
    String,
    Error,
>)
    ensures
        match plugin {
            ProbeOutcome::Found { index, name, version } => r == Ok::<String, Error>(name),
            ProbeOutcome::NotFound => match standalone {
                ProbeOutcome::Found { index, name, version } => r == Ok::<String, Error>(name),
                ProbeOutcome::NotFound => r == Err::<String, Error>(
                    Error::NoDockerComposeExecutable,
                ),
            },
        },
{
    match plugin {
        ProbeOutcome::Found { index: _, name, version: _ } => Ok(name),
        ProbeOutcome::NotFound => match standalone {
            ProbeOutcome::Found { index: _, name, version: _ } => Ok(name),
            ProbeOutcome::NotFound => Err(Error::NoDockerComposeExecutable),
        },
    }
}

/// A line of launcher output names an installed interpreter when it
/// holds `-3` somewhere.
pub open spec fn spec_has_dash3(line: Seq<u8>) -> bool {
    exists|i: int| 0 <= i && i + 1 < line.len() && line[i] == 45 && #[trigger] line[i + 1] == 51
}

/// The first line naming an installed interpreter, or -1.
pub open spec fn spec_first_dash3(lines: Seq<Seq<u8>>) -> int
    decreases lines.len(),
{
    if lines.len() == 0 {
        -1
    } else if spec_has_dash3(lines[0]) {
        0
    } else {
        let r = spec_first_dash3(lines.skip(1));
        if r < 0 {
            -1
        } else {
            r + 1
        }
    }
}

/// The leading non-whitespace run.
pub open spec fn take_until_ws(s: Seq<u8>) -> Seq<u8>
    decreases s.len(),
{
    if s.len() == 0 || crate::version::is_ws_byte(s[0]) {
        Seq::empty()
    } else {
        seq![s[0]] + take_until_ws(s.skip(1))
    }
}

/// A line's first whitespace-delimited token.
pub open spec fn spec_first_token(line: Seq<u8>) -> Seq<u8> {
    take_until_ws(crate::version::trim_start(line))
}

/// The token with every leading dash removed.
pub open spec fn strip_dashes(s: Seq<u8>) -> Seq<u8>
    decreases s.len(),
{
    if s.len() > 0 && s[0] == 45 {
        strip_dashes(s.skip(1))
    } else {
        s
    }
}

/// The synthetic launcher invocation derived from launcher output: on
/// the first line holding `-3`, take the first token, drop its leading
/// dashes, and prefix the launcher call; nothing when no line holds the
/// pattern or that line has no token.
pub open spec fn spec_launcher_command(output: Seq<u8>) -> Option<Seq<u8>> {
    let lines = crate::version::split_on(output, 10);
    let i = spec_first_dash3(lines);
    if i < 0 {
        None
    } else {
        let tok = spec_first_token(lines[i]);
        if tok.len() == 0 {
            None
        } else {
            Some(seq![112u8, 121u8, 32u8, 45u8] + strip_dashes(tok))
        }
    }
}

fn has_dash3_exec(line: &Vec<u8>) -> (r: bool)
    ensures
        r == spec_has_dash3(line@),
{
    if line.len() == 0 {
        return false;
    }
    let mut i: usize = 0;
    let n = line.len();
    while i + 1 < n
        invariant
            n == line@.len(),
            1 <= n,
            i < n,
            forall|k: int|
                0 <= k < i && k + 1 < line@.len() ==> !(line@[k] == 45 && #[trigger] line@[k + 1]
                    == 51),
        decreases line@.len() - i,
    {
        if line[i] == 45 && line[i + 1] == 51 {
            return true;
        }
        i = i + 1;
    }
    false
}

proof fn lemma_take_until_ws(s: Seq<u8>, e: int)
    requires
        0 <= e <= s.len(),
        forall|j: int| 0 <= j < e ==> !crate::version::is_ws_byte(#[trigger] s[j]),
        e == s.len() || crate::version::is_ws_byte(s[e]),
    ensures
        take_until_ws(s) == s.subrange(0, e),
    decreases e,
{
    if e == 0 {
        assert(s.subrange(0, 0) =~= Seq::<u8>::empty());
    } else {
        assert(!crate::version::is_ws_byte(s[0]));
        lemma_take_until_ws(s.skip(1), e - 1);
        assert(seq![s[0]] + s.skip(1).subrange(0, e - 1) =~= s.subrange(0, e));
    }
}

proof fn lemma_strip_dashes(s: Seq<u8>, k: int)
    requires
        0 <= k <= s.len(),
        forall|j: int| 0 <= j < k ==> #[trigger] s[j] == 45,
        k == s.len() || s[k] != 45,
    ensures
        strip_dashes(s) == s.skip(k),
    decreases k,
{
    if k == 0 {
        assert(s.skip(0) =~= s);
    } else {
        assert(s[0] == 45);
        lemma_strip_dashes(s.skip(1), k - 1);
        assert(s.skip(1).skip(k - 1) =~= s.skip(k));
    }
}

/// Parse launcher output into the synthetic interpreter invocation, the
/// platform-exclusive fallback taken when no direct candidate
/// qualified.
pub fn py_launcher_fallback(output: &[u8]) -> (r: Option<Vec<u8>>)
    ensures
        match r {
            Some(v) => spec_launcher_command(output@) == Some(v@),
            None => spec_launcher_command(output@) is None,
        },
{
    let lines = crate::version::split_on_exec(output, 0, 10);
    proof {
        assert(output@.skip(0) =~= output@);
    }
    let ghost lv = crate::version::bytes_view(lines@);
    let mut i: usize = 0;
    proof {
        assert(lv.skip(0) =~= lv);
    }
    while i < lines.len()
        invariant
            i <= lines@.len(),
            lv == crate::version::bytes_view(lines@),
            lv == crate::version::split_on(output@, 10),
            spec_first_dash3(lv) == (if spec_first_dash3(lv.skip(i as int)) < 0 {
                -1int
            } else {
                spec_first_dash3(lv.skip(i as int)) + i
            }),
        decreases lines@.len() - i,
    {
        proof {
            assert(lv.skip(i as int)[0] == lv[i as int]);
            assert(lv.skip(i as int).skip(1) =~= lv.skip(i as int + 1));
        }
        if has_dash3_exec(&lines[i]) {
            proof {
                assert(spec_has_dash3(lv[i as int]));
                assert(spec_first_dash3(lv.skip(i as int)) == 0);
                assert(spec_first_dash3(lv) == i);
            }
            return launcher_token(&lines[i], Ghost(lv), Ghost(i as int));
        }
        i = i + 1;
    }
    proof {
        assert(lv.skip(i as int).len() == 0);
    }
    None
}

fn launcher_token(line: &Vec<u8>, Ghost(lv): Ghost<Seq<Seq<u8>>>, Ghost(idx): Ghost<int>) -> (r:
    Option<Vec<u8>>)
    requires
        0 <= idx < lv.len(),
        lv[idx] == line@,
        spec_first_dash3(lv) == idx,
    ensures
        ({
            let tok = spec_first_token(lv[idx]);
            match r {
                Some(v) => tok.len() != 0 && v@ == seq![112u8, 121u8, 32u8, 45u8] + strip_dashes(
                    tok,
                ),
                None => tok.len() == 0,
            }
        }),
{
    let n = line.len();
    let mut st: usize = 0;
    while st < n && is_ws_probe(line[st])
        invariant
            n == line@.len(),
            st <= n,
            forall|j: int| 0 <= j < st ==> crate::version::is_ws_byte(#[trigger] line@[j]),
        decreases n - st,
    {
        st = st + 1;
    }
    proof {
        crate::version::lemma_trim_start_at(line@, st as int);
    }
    if st == n {
        proof {
            assert(line@.skip(st as int).len() == 0);
        }
        return None;
    }
    let mut en: usize = st;
    while en < n && !is_ws_probe(line[en])
        invariant
            n == line@.len(),
            st <= en <= n,
            forall|j: int| st <= j < en ==> !crate::version::is_ws_byte(#[trigger] line@[j]),
        decreases n - en,
    {
        en = en + 1;
    }
    proof {
        let t = line@.skip(st as int);
        assert(forall|j: int|
            0 <= j < en - st ==> !crate::version::is_ws_byte(#[trigger] t[j]) && t[j] == line@[
                j + st
            ]);
        if en < n {
            assert(t[en - st] == line@[en as int]);
        }
        lemma_take_until_ws(t, en - st);
        assert(t.subrange(0, en - st) =~= line@.subrange(st as int, en as int));
    }
    let mut d: usize = st;
    while d < en && line[d] == 45
        invariant
            n == line@.len(),
            st <= d <= en <= n,
            forall|j: int| st <= j < d ==> #[trigger] line@[j] == 45,
        decreases en - d,
    {
        d = d + 1;
    }
    proof {
        let tok = line@.subrange(st as int, en as int);
        assert(forall|j: int| 0 <= j < d - st ==> #[trigger] tok[j] == 45);
        if d < en {
            assert(tok[d - st] == line@[d as int]);
        }
        lemma_strip_dashes(tok, d - st);
        assert(tok.skip(d - st) =~= line@.subrange(d as int, en as int));
    }
    let mut r: Vec<u8> = Vec::new();
    r.push(112);
    r.push(121);
    r.push(32);
    r.push(45);
    let mut m: usize = d;
    while m < en
        invariant
            n == line@.len(),
            d <= m <= en <= n,
            r@ == seq![112u8, 121u8, 32u8, 45u8] + line@.subrange(d as int, m as int),
        decreases en - m,
    {
        r.push(line[m]);
        proof {
            assert(r@ =~= seq![112u8, 121u8, 32u8, 45u8] + line@.subrange(
                d as int,
                m as int + 1,
            ));
        }
        m = m + 1;
    }
    proof {
        assert(spec_first_token(line@) == line@.subrange(st as int, en as int));
        assert(spec_first_token(line@).len() != 0);
    }
    Some(r)
}

fn is_ws_probe(b: u8) -> (r: bool)
    ensures
        r == crate::version::is_ws_byte(b),
{
    b == 32 || b == 9 || b == 10 || b == 11 || b == 12 || b == 13
}

/// Replace every occurrence of a non-empty pattern, left to right and
/// without overlap, as `str::replace` does.
pub open spec fn spec_replace(s: Seq<u8>, pat: Seq<u8>, rep: Seq<u8>) -> Seq<u8>
    decreases s.len(),
{
    if pat.len() == 0 || s.len() < pat.len() {
        s
    } else if s.take(pat.len() as int) == pat {
        rep + spec_replace(s.skip(pat.len() as int), pat, rep)
    } else {
        seq![s[0]] + spec_replace(s.skip(1), pat, rep)
    }
}

/// The environment-variable placeholder carried by the Windows
/// user-local interpreter paths, as bytes.
pub open spec fn username_pattern() -> Seq<u8> {
    seq![37u8, 85u8, 83u8, 69u8, 82u8, 78u8, 65u8, 77u8, 69u8, 37u8]
}

fn username_pattern_exec() -> (r: Vec<u8>)
    ensures
        r@ == username_pattern(),
{
    let mut r: Vec<u8> = Vec::new();
    r.push(37);
    r.push(85);
    r.push(83);
    r.push(69);
    r.push(82);
    r.push(78);
    r.push(65);
    r.push(77);
    r.push(69);
    r.push(37);
    proof {
        assert(r@ =~= username_pattern());
    }
    r
}

fn matches_at(s: &[u8], i: usize, pat: &[u8]) -> (r: bool)
    requires
        i <= s@.len(),
    ensures
        r == (s@.skip(i as int).len() >= pat@.len() && s@.skip(i as int).take(pat@.len() as int)
            == pat@),
{
    let n = s.len();
    let m = pat.len();
    if n - i < m {
        return false;
    }
    let mut j: usize = 0;
    while j < m
        invariant
            i + m <= n,
            n == s@.len(),
            m == pat@.len(),
            j <= m,
            forall|k: int| 0 <= k < j ==> s@[i + k] == pat@[k],
        decreases m - j,
    {
        if *vstd::slice::slice_index_get(s, i + j) != *vstd::slice::slice_index_get(pat, j) {
            proof {
                assert(s@.skip(i as int).take(m as int)[j as int] == s@[i + j]);
            }
            return false;
        }
        j = j + 1;
    }
    proof {
        assert(s@.skip(i as int).take(m as int) =~= pat@);
    }
    true
}

fn replace_from(s: &[u8], i: usize, pat: &[u8], rep: &[u8]) -> (r: Vec<u8>)
    requires
        i <= s@.len(),
        pat@.len() >= 1,
    ensures
        r@ == spec_replace(s@.skip(i as int), pat@, rep@),
    decreases s@.len() - i,
{
    let n = s.len();
    proof {
        assert(s@.skip(i as int).len() == n - i);
    }
    if n - i < pat.len() {
        let r = vstd::slice::slice_to_vec(vstd::slice::slice_subrange(s, i, n));
        proof {
            assert(r@ =~= s@.skip(i as int));
        }
        r
    } else if matches_at(s, i, pat) {
        let mut r = vstd::slice::slice_to_vec(rep);
        let mut rest = replace_from(s, i + pat.len(), pat, rep);
        r.append(&mut rest);
        proof {
            assert(s@.skip(i as int).skip(pat@.len() as int) =~= s@.skip(
                i as int + pat@.len(),
            ));
        }
        r
    } else {
        let b = *vstd::slice::slice_index_get(s, i);
        let mut r: Vec<u8> = Vec::new();
        r.push(b);
        let mut rest = replace_from(s, i + 1, pat, rep);
        r.append(&mut rest);
        proof {
            assert(s@.skip(i as int)[0] == s@[i as int]);
            assert(s@.skip(i as int).skip(1) =~= s@.skip(i as int + 1));
            assert(r@ =~= seq![s@[i as int]] + spec_replace(
                s@.skip(i as int + 1),
                pat@,
                rep@,
            ));
        }
        r
    }
}

/// Replace every occurrence of the username placeholder in a candidate
/// name with the given username; a name without the placeholder comes
/// back unchanged.
pub fn substitute_username(name: &[u8], username: &[u8]) -> (r: Vec<u8>)
    ensures
        r@ == spec_replace(name@, username_pattern(), username@),
{
    let pat = username_pattern_exec();
    let r = replace_from(name, 0, pat.as_slice(), username);
    proof {
        assert(name@.skip(0) =~= name@);
    }
    r
}

} // verus!
