use vstd::prelude::*;

verus! {

broadcast use vstd::seq_lib::lemma_seq_contains_after_push;

/// A spoken-language code, as a plain numeric identifier.
#[derive(Clone, Copy, PartialEq, Eq, Structural, Debug, Hash)]
pub struct SpokenCode {
    pub code: u32,
}

/// A programming-language code, as a plain numeric identifier.
#[derive(Clone, Copy, PartialEq, Eq, Structural, Debug, Hash)]
pub struct ProgrammingCode {
    pub code: u32,
}

/// One row of a workshop's language table: a spoken language and the
/// programming languages the workshop offers it with.
pub struct LanguageSupport {
    pub spoken: SpokenCode,
    pub programming: Vec<ProgrammingCode>,
}

/// What this core reads of a workshop: its language table. Everything
/// else about a workshop's content is opaque directory data.
pub struct WorkshopData {
    pub languages: Vec<LanguageSupport>,
}

/// One workshop of a store, under its identifier.
pub struct WorkshopEntry {
    pub id: String,
    pub data: WorkshopData,
}

/// The workshops of a store (or of several stores merged), in
/// enumeration order, keyed by identifier.
pub struct Workshops {
    pub entries: Vec<WorkshopEntry>,
}

pub open spec fn spec_supports_spoken(w: WorkshopData, c: SpokenCode) -> bool {
    exists|i: int| 0 <= i < w.languages@.len() && (#[trigger] w.languages@[i]).spoken == c
}

pub open spec fn spec_supports_programming(w: WorkshopData, p: ProgrammingCode) -> bool {
    exists|i: int, j: int|
        0 <= i < w.languages@.len() && 0 <= j < w.languages@[i].programming@.len()
            && #[trigger] w.languages@[i].programming@[j] == p
}

/// A workshop offers the spoken language `c` together with the
/// programming language `p` in one of its rows.
pub open spec fn spec_supports_pair(w: WorkshopData, c: SpokenCode, p: ProgrammingCode) -> bool {
    exists|i: int, j: int|
        0 <= i < w.languages@.len() && w.languages@[i].spoken == c && 0 <= j
            < w.languages@[i].programming@.len()
            && #[trigger] w.languages@[i].programming@[j] == p
}

/// Whether a workshop is selected under optional language filters: an
/// absent filter passes everything, a present one asks for support.
pub open spec fn spec_selected(
    w: WorkshopData,
    spoken: Option<SpokenCode>,
    programming: Option<ProgrammingCode>,
) -> bool {
    &&& match spoken {
        None => true,
        Some(c) => spec_supports_spoken(w, c),
    }
    &&& match programming {
        None => true,
        Some(p) => spec_supports_programming(w, p),
    }
}

impl WorkshopData {
    pub fn supports_spoken(&self, c: SpokenCode) -> (r: bool)
        ensures
            r == spec_supports_spoken(*self, c),
    {
        let mut i: usize = 0;
        while i < self.languages.len()
            invariant
                i <= self.languages@.len(),
                forall|k: int| 0 <= k < i ==> (#[trigger] self.languages@[k]).spoken != c,
            decreases self.languages@.len() - i,
        {
            if self.languages[i].spoken.code == c.code {
                return true;
            }
            i = i + 1;
        }
        false
    }

    pub fn supports_programming(&self, p: ProgrammingCode) -> (r: bool)
        ensures
            r == spec_supports_programming(*self, p),
    {
        let mut i: usize = 0;
        while i < self.languages.len()
            invariant
                i <= self.languages@.len(),
                forall|k: int, j: int|
                    0 <= k < i && 0 <= j < self.languages@[k].programming@.len()
                        ==> #[trigger] self.languages@[k].programming@[j] != p,
            decreases self.languages@.len() - i,
        {
            let row = &self.languages[i];
            let mut j: usize = 0;
            while j < row.programming.len()
                invariant
                    j <= row.programming@.len(),
                    row == self.languages@[i as int],
                    i < self.languages@.len(),
                    forall|jj: int| 0 <= jj < j ==> (#[trigger] row.programming@[jj]) != p,
                decreases row.programming@.len() - j,
            {
                if row.programming[j].code == p.code {
                    return true;
                }
                j = j + 1;
            }
            i = i + 1;
        }
        false
    }

    /// Whether this workshop passes the given optional spoken and
    /// programming language filters.
    pub fn is_selected(
        &self,
        spoken_language: Option<SpokenCode>,
        programming_language: Option<ProgrammingCode>,
    ) -> (r: bool)
        ensures
            r == spec_selected(*self, spoken_language, programming_language),
    {
        let spoken_ok = match spoken_language {
            None => true,
            Some(c) => self.supports_spoken(c),
        };
        let programming_ok = match programming_language {
            None => true,
            Some(p) => self.supports_programming(p),
        };
        spoken_ok && programming_ok
    }

    /// The spoken languages of this workshop's table, in table order.
    pub fn get_all_spoken_languages(&self) -> (r: Vec<SpokenCode>)
        ensures
            r@.len() == self.languages@.len(),
            forall|i: int| 0 <= i < r@.len() ==> r@[i] == self.languages@[i].spoken,
    {
        let mut r: Vec<SpokenCode> = Vec::new();
        let mut i: usize = 0;
        while i < self.languages.len()
            invariant
                i <= self.languages@.len(),
                r@.len() == i,
                forall|k: int| 0 <= k < i ==> r@[k] == self.languages@[k].spoken,
            decreases self.languages@.len() - i,
        {
            r.push(self.languages[i].spoken);
            i = i + 1;
        }
        r
    }

    /// The programming languages of this workshop, flattened across its
    /// rows: it holds exactly the languages the workshop supports.
    pub fn get_all_programming_languages(&self) -> (r: Vec<ProgrammingCode>)
        ensures
            forall|p: ProgrammingCode| r@.contains(p) <==> spec_supports_programming(*self, p),
    {
        let mut r: Vec<ProgrammingCode> = Vec::new();
        let mut i: usize = 0;
        while i < self.languages.len()
            invariant
                i <= self.languages@.len(),
                forall|p: ProgrammingCode|
                    r@.contains(p) <==> exists|k: int, j: int|
                        0 <= k < i && 0 <= j < self.languages@[k].programming@.len()
                            && #[trigger] self.languages@[k].programming@[j] == p,
            decreases self.languages@.len() - i,
        {
            let row = &self.languages[i];
            let mut j: usize = 0;
            while j < row.programming.len()
                invariant
                    j <= row.programming@.len(),
                    row == self.languages@[i as int],
                    i < self.languages@.len(),
                    forall|p: ProgrammingCode|
                        r@.contains(p) <==> (exists|k: int, jj: int|
                            0 <= k < i && 0 <= jj < self.languages@[k].programming@.len()
                                && #[trigger] self.languages@[k].programming@[jj] == p) || (
                        exists|jj: int| 0 <= jj < j && (#[trigger] row.programming@[jj]) == p),
                decreases row.programming@.len() - j,
            {
                let p = row.programming[j];
                r.push(p);
                j = j + 1;
            }
            i = i + 1;
        }
        r
    }

    /// The full language table.
    pub fn get_all_languages(&self) -> (r: &Vec<LanguageSupport>)
        ensures
            r == &self.languages,
    {
        &self.languages
    }
}

pub open spec fn spec_has_id(entries: Seq<WorkshopEntry>, id: Seq<char>) -> bool {
    exists|i: int| 0 <= i < entries.len() && (#[trigger] entries[i]).id@ == id
}

fn has_id(entries: &Vec<WorkshopEntry>, id: &String) -> (r: bool)
    ensures
        r == spec_has_id(entries@, id@),
{
    let mut i: usize = 0;
    while i < entries.len()
        invariant
            i <= entries@.len(),
            forall|k: int| 0 <= k < i ==> (#[trigger] entries@[k]).id@ != id@,
        decreases entries@.len() - i,
    {
        if entries[i].id == *id {
            return true;
        }
        i = i + 1;
    }
    false
}

/// The application-store entries that survive a merge with the local
/// store: those whose identifier no local entry carries, in order.
pub open spec fn spec_survivors(app: Seq<WorkshopEntry>, local: Seq<WorkshopEntry>) -> Seq<
    WorkshopEntry,
>
    decreases app.len(),
{
    if app.len() == 0 {
        Seq::empty()
    } else {
        let rest = spec_survivors(app.drop_last(), local);
        if spec_has_id(local, app.last().id@) {
            rest
        } else {
            rest.push(app.last())
        }
    }
}

/// The deterministic merge of the two stores: surviving application
/// entries first, local entries after them.
pub open spec fn spec_merge(app: Seq<WorkshopEntry>, local: Seq<WorkshopEntry>) -> Seq<
    WorkshopEntry,
> {
    spec_survivors(app, local) + local
}

/// Merge the application data store's workshops with the local
/// workspace store's, when one was found: local entries follow the
/// application entries and override them, so an application entry
/// survives only when no local entry carries its identifier. The merge
/// order is fixed, so the result is deterministic.
pub fn all_workshops(app_store: Workshops, local_store: Option<Workshops>) -> (r: Workshops)
    ensures
        match local_store {
            None => r.entries@ == app_store.entries@,
            Some(l) => r.entries@ == spec_merge(app_store.entries@, l.entries@),
        },
{
    let l = match local_store {
        None => {
            return app_store;
        },
        Some(l) => l,
    };
    let ghost lorig = l.entries@;
    let mut src = app_store.entries;
    let ghost orig = src@;
    let mut out: Vec<WorkshopEntry> = Vec::new();
    let mut i: usize = 0;
    let n0 = src.len();
    proof {
        assert(orig.take(0) =~= Seq::<WorkshopEntry>::empty());
        assert(orig.len() == n0);
    }
    while src.len() > 0
        invariant
            i + src@.len() == orig.len(),
            orig.len() <= usize::MAX,
            src@ == orig.skip(i as int),
            lorig == l.entries@,
            out@ == spec_survivors(orig.take(i as int), lorig),
        decreases src@.len(),
    {
        let e = src.remove(0);
        proof {
            assert(orig.skip(i as int)[0] == orig[i as int]);
            assert(orig.skip(i as int).remove(0) =~= orig.skip(i as int + 1));
        }
        let keep = !has_id(&l.entries, &e.id);
        proof {
            let t = orig.take(i as int + 1);
            assert(t.drop_last() =~= orig.take(i as int));
            assert(t.last() == orig[i as int]);
        }
        if keep {
            out.push(e);
        }
        i = i + 1;
    }
    proof {
        assert(orig.take(i as int) =~= orig);
    }
    let mut rest = l.entries;
    let mut k: usize = 0;
    let m0 = rest.len();
    proof {
        assert(lorig.len() == m0);
        assert(lorig.skip(0) =~= lorig);
        assert(lorig.take(0) =~= Seq::<WorkshopEntry>::empty());
    }
    while rest.len() > 0
        invariant
            k + rest@.len() == lorig.len(),
            lorig.len() <= usize::MAX,
            rest@ == lorig.skip(k as int),
            out@ == spec_survivors(orig, lorig) + lorig.take(k as int),
        decreases rest@.len(),
    {
        let e = rest.remove(0);
        proof {
            assert(lorig.skip(k as int)[0] == lorig[k as int]);
            assert(lorig.skip(k as int).remove(0) =~= lorig.skip(k as int + 1));
        }
        out.push(e);
        proof {
            assert(out@ =~= spec_survivors(orig, lorig) + lorig.take(k as int + 1));
        }
        k = k + 1;
    }
    proof {
        assert(lorig.take(k as int) =~= lorig);
        assert(out@ =~= spec_merge(orig, lorig));
    }
    Workshops { entries: out }
}

/// Look a workshop up by identifier: the first entry that carries it.
pub open spec fn spec_find(entries: Seq<WorkshopEntry>, id: Seq<char>) -> Option<WorkshopData>
    decreases entries.len(),
{
    if entries.len() == 0 {
        None
    } else if entries[0].id@ == id {
        Some(entries[0].data)
    } else {
        spec_find(entries.skip(1), id)
    }
}

/// Get the named workshop out of a store, if it is there.
pub fn load<'a>(workshops: &'a Workshops, workshop: &String) -> (r: Option<&'a WorkshopData>)
    ensures
        match r {
            Some(d) => spec_find(workshops.entries@, workshop@) == Some(*d),
            None => spec_find(workshops.entries@, workshop@) is None,
        },
{
    let mut i: usize = 0;
    proof {
        assert(workshops.entries@.skip(0) =~= workshops.entries@);
    }
    while i < workshops.entries.len()
        invariant
            i <= workshops.entries@.len(),
            spec_find(workshops.entries@, workshop@) == spec_find(
                workshops.entries@.skip(i as int),
                workshop@,
            ),
        decreases workshops.entries@.len() - i,
    {
        proof {
            assert(workshops.entries@.skip(i as int)[0] == workshops.entries@[i as int]);
            assert(workshops.entries@.skip(i as int).skip(1) =~= workshops.entries@.skip(
                i as int + 1,
            ));
        }
        if workshops.entries[i].id == *workshop {
            return Some(&workshops.entries[i].data);
        }
        i = i + 1;
    }
    None
}

/// Keep the workshops that pass the given optional language filters, in
/// their merged order.
pub fn all_workshops_filtered(
    workshops: Workshops,
    spoken_language: Option<SpokenCode>,
    programming_language: Option<ProgrammingCode>,
) -> (r: Workshops)
    ensures
        r.entries@ == spec_selected_entries(
            workshops.entries@,
            spoken_language,
            programming_language,
        ),
{
    let mut src = workshops.entries;
    let ghost orig = src@;
    let mut out: Vec<WorkshopEntry> = Vec::new();
    let mut i: usize = 0;
    let n0 = src.len();
    proof {
        assert(orig.take(0) =~= Seq::<WorkshopEntry>::empty());
        assert(orig.len() == n0);
    }
    while src.len() > 0
        invariant
            i + src@.len() == orig.len(),
            orig.len() <= usize::MAX,
            src@ == orig.skip(i as int),
            out@ == spec_selected_entries(
                orig.take(i as int),
                spoken_language,
                programming_language,
            ),
        decreases src@.len(),
    {
        let e = src.remove(0);
        proof {
            assert(orig.skip(i as int)[0] == orig[i as int]);
            assert(orig.skip(i as int).remove(0) =~= orig.skip(i as int + 1));
            let t = orig.take(i as int + 1);
            assert(t.drop_last() =~= orig.take(i as int));
            assert(t.last() == orig[i as int]);
        }
        let keep = e.data.is_selected(spoken_language, programming_language);
        if keep {
            out.push(e);
        }
        i = i + 1;
    }
    proof {
        assert(orig.take(i as int) =~= orig);
    }
    Workshops { entries: out }
}

/// The entries whose workshops pass the filters, in order.
pub open spec fn spec_selected_entries(
    entries: Seq<WorkshopEntry>,
    spoken: Option<SpokenCode>,
    programming: Option<ProgrammingCode>,
) -> Seq<WorkshopEntry>
    decreases entries.len(),
{
    if entries.len() == 0 {
        Seq::empty()
    } else {
        let rest = spec_selected_entries(entries.drop_last(), spoken, programming);
        if spec_selected(entries.last().data, spoken, programming) {
            rest.push(entries.last())
        } else {
            rest
        }
    }
}

pub open spec fn spec_sorted_spoken(s: Seq<SpokenCode>) -> bool {
    forall|i: int, j: int| 0 <= i < j < s.len() ==> s[i].code < s[j].code
}

pub open spec fn spec_sorted_programming(s: Seq<ProgrammingCode>) -> bool {
    forall|i: int, j: int| 0 <= i < j < s.len() ==> s[i].code < s[j].code
}

pub open spec fn spec_any_supports_spoken(entries: Seq<WorkshopEntry>, c: SpokenCode) -> bool {
    exists|i: int| 0 <= i < entries.len() && spec_supports_spoken((#[trigger] entries[i]).data, c)
}

pub open spec fn spec_any_supports_programming(
    entries: Seq<WorkshopEntry>,
    p: ProgrammingCode,
) -> bool {
    exists|i: int|
        0 <= i < entries.len() && spec_supports_programming((#[trigger] entries[i]).data, p)
}

pub open spec fn spec_any_supports_pair(
    entries: Seq<WorkshopEntry>,
    c: SpokenCode,
    p: ProgrammingCode,
) -> bool {
    exists|i: int|
        0 <= i < entries.len() && spec_supports_pair((#[trigger] entries[i]).data, c, p)
}

fn insert_spoken(v: &mut Vec<SpokenCode>, x: SpokenCode)
    requires
        spec_sorted_spoken(old(v)@),
    ensures
        spec_sorted_spoken(final(v)@),
        forall|c: SpokenCode| final(v)@.contains(c) <==> old(v)@.contains(c) || c == x,
{
    let mut i: usize = 0;
    while i < v.len() && v[i].code < x.code
        invariant
            i <= v@.len(),
            v@ == old(v)@,
            forall|k: int| 0 <= k < i ==> (#[trigger] v@[k]).code < x.code,
        decreases v@.len() - i,
    {
        i = i + 1;
    }
    if i < v.len() && v[i].code == x.code {
        proof {
            assert(v@[i as int] == x);
            assert(v@.contains(x));
        }
        return ;
    }
    let ghost oldv = v@;
    v.insert(i, x);
    proof {
        oldv.insert_ensures(i as int, x);
        assert forall|c: SpokenCode| final(v)@.contains(c) implies oldv.contains(c) || c
            == x by {
            let idx = choose|idx: int| 0 <= idx < final(v)@.len() && final(v)@[idx] == c;
            if idx < i {
                assert(oldv[idx] == c);
            } else if idx > i {
                assert(oldv[idx - 1] == c);
            }
        }
        assert forall|c: SpokenCode| oldv.contains(c) || c == x implies final(v)@.contains(c) by {
            if oldv.contains(c) {
                let idx = choose|idx: int| 0 <= idx < oldv.len() && oldv[idx] == c;
                if idx < i {
                    assert(final(v)@[idx] == c);
                } else {
                    assert(final(v)@[idx + 1] == c);
                }
            } else {
                assert(final(v)@[i as int] == x);
            }
        }
        assert forall|a: int, b: int| 0 <= a < b < final(v)@.len() implies (#[trigger] final(v)@[a]).code < (#[trigger] final(v)@[b]).code by {
            if i < oldv.len() {
                assert(oldv[i as int].code >= x.code);
                assert(oldv[i as int].code != x.code);
            }
        }
    }
}

fn insert_programming(v: &mut Vec<ProgrammingCode>, x: ProgrammingCode)
    requires
        spec_sorted_programming(old(v)@),
    ensures
        spec_sorted_programming(final(v)@),
        forall|c: ProgrammingCode| final(v)@.contains(c) <==> old(v)@.contains(c) || c == x,
{
    let mut i: usize = 0;
    while i < v.len() && v[i].code < x.code
        invariant
            i <= v@.len(),
            v@ == old(v)@,
            forall|k: int| 0 <= k < i ==> (#[trigger] v@[k]).code < x.code,
        decreases v@.len() - i,
    {
        i = i + 1;
    }
    if i < v.len() && v[i].code == x.code {
        proof {
            assert(v@[i as int] == x);
            assert(v@.contains(x));
        }
        return ;
    }
    let ghost oldv = v@;
    v.insert(i, x);
    proof {
        oldv.insert_ensures(i as int, x);
        assert forall|c: ProgrammingCode| final(v)@.contains(c) implies oldv.contains(c) || c
            == x by {
            let idx = choose|idx: int| 0 <= idx < final(v)@.len() && final(v)@[idx] == c;
            if idx < i {
                assert(oldv[idx] == c);
            } else if idx > i {
                assert(oldv[idx - 1] == c);
            }
        }
        assert forall|c: ProgrammingCode| oldv.contains(c) || c == x implies final(v)@.contains(c) by {
            if oldv.contains(c) {
                let idx = choose|idx: int| 0 <= idx < oldv.len() && oldv[idx] == c;
                if idx < i {
                    assert(final(v)@[idx] == c);
                } else {
                    assert(final(v)@[idx + 1] == c);
                }
            } else {
                assert(final(v)@[i as int] == x);
            }
        }
        assert forall|a: int, b: int| 0 <= a < b < final(v)@.len() implies (#[trigger] final(v)@[a]).code < (#[trigger] final(v)@[b]).code by {
            if i < oldv.len() {
                assert(oldv[i as int].code >= x.code);
                assert(oldv[i as int].code != x.code);
            }
        }
    }
}

/// The spoken languages supported by any workshop of the merged store,
/// sorted and without duplicates: exactly the union of the workshops'
/// spoken languages, in a canonical order independent of enumeration.
pub fn all_spoken_languages(workshops: &Workshops) -> (r: Vec<SpokenCode>)
    ensures
        spec_sorted_spoken(r@),
        forall|c: SpokenCode| r@.contains(c) <==> spec_any_supports_spoken(workshops.entries@, c),
{
    let entries = &workshops.entries;
    let mut r: Vec<SpokenCode> = Vec::new();
    let mut i: usize = 0;
    while i < entries.len()
        invariant
            i <= entries@.len(),
            spec_sorted_spoken(r@),
            forall|c: SpokenCode|
                r@.contains(c) <==> exists|k: int|
                    0 <= k < i && spec_supports_spoken((#[trigger] entries@[k]).data, c),
        decreases entries@.len() - i,
    {
        let rows = &entries[i].data.languages;
        let mut j: usize = 0;
        while j < rows.len()
            invariant
                j <= rows@.len(),
                i < entries@.len(),
                rows == entries@[i as int].data.languages,
                spec_sorted_spoken(r@),
                forall|c: SpokenCode|
                    r@.contains(c) <==> (exists|k: int|
                        0 <= k < i && spec_supports_spoken((#[trigger] entries@[k]).data, c)) || (
                    exists|jj: int| 0 <= jj < j && (#[trigger] rows@[jj]).spoken == c),
            decreases rows@.len() - j,
        {
            insert_spoken(&mut r, rows[j].spoken);
            j = j + 1;
        }
        i = i + 1;
    }
    r
}

/// The programming languages supported by any workshop of the merged
/// store, sorted and without duplicates.
pub fn all_programming_languages(workshops: &Workshops) -> (r: Vec<ProgrammingCode>)
    ensures
        spec_sorted_programming(r@),
        forall|p: ProgrammingCode|
            r@.contains(p) <==> spec_any_supports_programming(workshops.entries@, p),
{
    let entries = &workshops.entries;
    let mut r: Vec<ProgrammingCode> = Vec::new();
    let mut i: usize = 0;
    while i < entries.len()
        invariant
            i <= entries@.len(),
            spec_sorted_programming(r@),
            forall|p: ProgrammingCode|
                r@.contains(p) <==> exists|k: int|
                    0 <= k < i && spec_supports_programming((#[trigger] entries@[k]).data, p),
        decreases entries@.len() - i,
    {
        let langs = entries[i].data.get_all_programming_languages();
        let mut j: usize = 0;
        while j < langs.len()
            invariant
                j <= langs@.len(),
                i < entries@.len(),
                spec_sorted_programming(r@),
                forall|p: ProgrammingCode|
                    langs@.contains(p) <==> spec_supports_programming(
                        entries@[i as int].data,
                        p,
                    ),
                forall|p: ProgrammingCode|
                    r@.contains(p) <==> (exists|k: int|
                        0 <= k < i && spec_supports_programming(
                            (#[trigger] entries@[k]).data,
                            p,
                        )) || (exists|jj: int| 0 <= jj < j && langs@[jj] == p),
            decreases langs@.len() - j,
        {
            insert_programming(&mut r, langs[j]);
            proof {
                assert(langs@.contains(langs@[j as int]));
            }
            j = j + 1;
        }
        proof {
            assert forall|p: ProgrammingCode|
                (exists|jj: int| 0 <= jj < langs@.len() && langs@[jj] == p) implies langs@.contains(
                p,
            ) by {}
        }
        i = i + 1;
    }
    r
}

fn programming_for_spoken(workshops: &Workshops, c: SpokenCode) -> (r: Vec<ProgrammingCode>)
    ensures
        spec_sorted_programming(r@),
        forall|p: ProgrammingCode|
            r@.contains(p) <==> spec_any_supports_pair(workshops.entries@, c, p),
{
    let entries = &workshops.entries;
    let mut r: Vec<ProgrammingCode> = Vec::new();
    let mut i: usize = 0;
    while i < entries.len()
        invariant
            i <= entries@.len(),
            spec_sorted_programming(r@),
            forall|p: ProgrammingCode|
                r@.contains(p) <==> exists|k: int|
                    0 <= k < i && spec_supports_pair((#[trigger] entries@[k]).data, c, p),
        decreases entries@.len() - i,
    {
        let rows = &entries[i].data.languages;
        let mut j: usize = 0;
        while j < rows.len()
            invariant
                j <= rows@.len(),
                i < entries@.len(),
                rows == entries@[i as int].data.languages,
                spec_sorted_programming(r@),
                forall|p: ProgrammingCode|
                    r@.contains(p) <==> (exists|k: int|
                        0 <= k < i && spec_supports_pair((#[trigger] entries@[k]).data, c, p))
                        || (exists|jj: int, pp: int|
                        0 <= jj < j && rows@[jj].spoken == c && 0 <= pp
                            < rows@[jj].programming@.len()
                            && #[trigger] rows@[jj].programming@[pp] == p),
            decreases rows@.len() - j,
        {
            if rows[j].spoken.code == c.code {
                let row = &rows[j];
                proof {
                    assert(row.spoken == c);
                }
                let mut m: usize = 0;
                while m < row.programming.len()
                    invariant
                        m <= row.programming@.len(),
                        i < entries@.len(),
                        j < rows@.len(),
                        rows == entries@[i as int].data.languages,
                        row == rows@[j as int],
                        row.spoken == c,
                        spec_sorted_programming(r@),
                        forall|p: ProgrammingCode|
                            r@.contains(p) <==> (exists|k: int|
                                0 <= k < i && spec_supports_pair(
                                    (#[trigger] entries@[k]).data,
                                    c,
                                    p,
                                )) || (exists|jj: int, pp: int|
                                0 <= jj < j && rows@[jj].spoken == c && 0 <= pp
                                    < rows@[jj].programming@.len()
                                    && #[trigger] rows@[jj].programming@[pp] == p) || (
                            exists|pp: int| 0 <= pp < m && (#[trigger] row.programming@[pp]) == p),
                    decreases row.programming@.len() - m,
                {
                    insert_programming(&mut r, row.programming[m]);
                    m = m + 1;
                }
            }
            j = j + 1;
        }
        i = i + 1;
    }
    r
}

/// The full spoken-to-programming mapping of the merged store: one row
/// per supported spoken language, keys sorted and unique, each row
/// holding the sorted, deduplicated union of the programming languages
/// offered with that spoken language by any workshop.
pub fn get_all_languages(workshops: &Workshops) -> (r: Vec<LanguageSupport>)
    ensures
        forall|i: int, j: int|
            0 <= i < j < r@.len() ==> (#[trigger] r@[i]).spoken.code < (
            #[trigger] r@[j]).spoken.code,
        forall|i: int| 0 <= i < r@.len() ==> spec_sorted_programming((#[trigger] r@[i]).programming@),
        forall|c: SpokenCode|
            (exists|i: int| 0 <= i < r@.len() && (#[trigger] r@[i]).spoken == c)
                <==> spec_any_supports_spoken(workshops.entries@, c),
        forall|i: int, p: ProgrammingCode|
            0 <= i < r@.len() ==> (#[trigger] r@[i].programming@.contains(p)
                <==> spec_any_supports_pair(workshops.entries@, r@[i].spoken, p)),
{
    let keys = all_spoken_languages(workshops);
    let mut r: Vec<LanguageSupport> = Vec::new();
    let mut i: usize = 0;
    while i < keys.len()
        invariant
            i <= keys@.len(),
            r@.len() == i,
            spec_sorted_spoken(keys@),
            forall|c: SpokenCode|
                keys@.contains(c) <==> spec_any_supports_spoken(workshops.entries@, c),
            forall|k: int| 0 <= k < i ==> (#[trigger] r@[k]).spoken == keys@[k],
            forall|k: int|
                0 <= k < i ==> spec_sorted_programming((#[trigger] r@[k]).programming@),
            forall|k: int, p: ProgrammingCode|
                0 <= k < i ==> (#[trigger] r@[k].programming@.contains(p)
                    <==> spec_any_supports_pair(workshops.entries@, r@[k].spoken, p)),
        decreases keys@.len() - i,
    {
        let c = keys[i];
        let programming = programming_for_spoken(workshops, c);
        r.push(LanguageSupport { spoken: c, programming });
        i = i + 1;
    }
    proof {
        assert forall|c: SpokenCode|
            (exists|k: int| 0 <= k < r@.len() && (#[trigger] r@[k]).spoken == c)
                <==> spec_any_supports_spoken(workshops.entries@, c) by {
            if exists|k: int| 0 <= k < r@.len() && (#[trigger] r@[k]).spoken == c {
                let k = choose|k: int| 0 <= k < r@.len() && (#[trigger] r@[k]).spoken == c;
                assert(keys@[k] == c);
                assert(keys@.contains(c));
            }
            if spec_any_supports_spoken(workshops.entries@, c) {
                assert(keys@.contains(c));
                let k = choose|k: int| 0 <= k < keys@.len() && keys@[k] == c;
                assert(r@[k].spoken == c);
            }
        }
    }
    r
}

proof fn lemma_sorted_spoken_canonical(a: Seq<SpokenCode>, b: Seq<SpokenCode>)
    requires
        spec_sorted_spoken(a),
        spec_sorted_spoken(b),
        forall|c: SpokenCode| a.contains(c) <==> b.contains(c),
    ensures
        a == b,
    decreases a.len(),
{
    if a.len() == 0 {
        if b.len() > 0 {
            assert(b.contains(b[0]));
            assert(a.contains(b[0]));
        }
        assert(a =~= b);
    } else {
        assert(a.contains(a[0]));
        assert(b.contains(a[0]));
        assert(b.contains(b[0]));
        assert(a.contains(b[0]));
        let ia = choose|k: int| 0 <= k < a.len() && a[k] == b[0];
        let ib = choose|k: int| 0 <= k < b.len() && b[k] == a[0];
        assert(a[0].code <= a[ia].code);
        assert(b[0].code <= b[ib].code);
        assert(a[0] == b[0]);
        let at = a.skip(1);
        let bt = b.skip(1);
        assert forall|c: SpokenCode| at.contains(c) <==> bt.contains(c) by {
            assert forall|c: SpokenCode| at.contains(c) implies bt.contains(c) by {
                let k = choose|k: int| 0 <= k < at.len() && at[k] == c;
                assert(a[k + 1] == c);
                assert(a.contains(c));
                assert(b.contains(c));
                let m = choose|m: int| 0 <= m < b.len() && b[m] == c;
                assert(a[0].code < a[k + 1].code);
                if m == 0 {
                    assert(b[0] == c);
                } else {
                    assert(bt[m - 1] == c);
                }
            }
            assert forall|c: SpokenCode| bt.contains(c) implies at.contains(c) by {
                let k = choose|k: int| 0 <= k < bt.len() && bt[k] == c;
                assert(b[k + 1] == c);
                assert(b.contains(c));
                assert(a.contains(c));
                let m = choose|m: int| 0 <= m < a.len() && a[m] == c;
                assert(b[0].code < b[k + 1].code);
                if m == 0 {
                    assert(a[0] == c);
                } else {
                    assert(at[m - 1] == c);
                }
            }
        }
        lemma_sorted_spoken_canonical(at, bt);
        assert forall|k: int| 0 <= k < a.len() implies a[k] == b[k] by {
            if k > 0 {
                assert(at[k - 1] == a[k]);
                assert(bt[k - 1] == b[k]);
            }
        }
        assert(a =~= b);
    }
}

/// Law: the aggregated spoken-language listing is canonical. Two stores
/// that support the same spoken languages — in whatever enumeration
/// order their workshops come — have equal listings, since each listing
/// is sorted, duplicate-free, and holds exactly the supported languages.
pub proof fn lemma_spoken_aggregation_deterministic(
    r1: Seq<SpokenCode>,
    r2: Seq<SpokenCode>,
    e1: Seq<WorkshopEntry>,
    e2: Seq<WorkshopEntry>,
)
    requires
        spec_sorted_spoken(r1),
        spec_sorted_spoken(r2),
        forall|c: SpokenCode| r1.contains(c) <==> spec_any_supports_spoken(e1, c),
        forall|c: SpokenCode| r2.contains(c) <==> spec_any_supports_spoken(e2, c),
        forall|c: SpokenCode| spec_any_supports_spoken(e1, c) <==> spec_any_supports_spoken(e2, c),
    ensures
        r1 == r2,
{
    lemma_sorted_spoken_canonical(r1, r2);
}

} // verus!
