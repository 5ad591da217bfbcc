//! The producer's decisions: what each archive entry is, which inputs own
//! which entries, and which parse jobs the notes and data entries make.
//! Reading archives and writing files is left to the caller.

use vstd::prelude::*;

use crate::strmap::StrMap;
use crate::text::{chars_of, string_of};

verus! {

/// Whether `d` is the position of the extension dot of `name`'s last
/// component: the last dot of that component, not its first character.
pub open spec fn entry_ext_dot(name: Seq<char>, d: int) -> bool {
    &&& 0 < d < name.len()
    &&& name[d] == '.'
    &&& name[d - 1] != '/'
    &&& forall|j: int| d < j < name.len() ==> name[j] != '.' && name[j] != '/'
}

/// Whether the extension of `name` is `e`.
pub open spec fn has_entry_ext(name: Seq<char>, e: Seq<char>) -> bool {
    exists|d: int| entry_ext_dot(name, d) && name.skip(d + 1) == e
}

/// `name` without its extension.
pub open spec fn entry_stem(name: Seq<char>) -> Seq<char> {
    name.take(choose|d: int| entry_ext_dot(name, d))
}

/// The name of the file that maps file keys to paths.
pub open spec fn mapping_file_name() -> Seq<char> {
    seq!['l', 'i', 'n', 'k', 'e', 'd', '-', 'f', 'i', 'l', 'e', 's', '-', 'm', 'a', 'p', '.', 'j', 's', 'o', 'n']
}

/// Whether the last component of `name` is the mapping file's name.
pub open spec fn is_mapping_file(name: Seq<char>) -> bool {
    let n = mapping_file_name().len();
    &&& name.len() >= n
    &&& name.skip(name.len() - n) == mapping_file_name()
    &&& (name.len() == n || name[name.len() - n - 1] == '/')
}

/// What an archive entry is.
pub enum EntryModel {
    /// A notes file, by its stem.
    Notes(Seq<char>),
    /// A data file, by its stem.
    Data(Seq<char>),
    /// A text coverage file, by its name.
    Text(Seq<char>),
    /// The mapping file, by its name.
    Mapping(Seq<char>),
    Other,
}

/// What the entry `name` is, by its extension or its file name.
pub open spec fn entry_kind(name: Seq<char>) -> EntryModel {
    if has_entry_ext(name, seq!['g', 'c', 'n', 'o']) {
        EntryModel::Notes(entry_stem(name))
    } else if has_entry_ext(name, seq!['g', 'c', 'd', 'a']) {
        EntryModel::Data(entry_stem(name))
    } else if has_entry_ext(name, seq!['i', 'n', 'f', 'o']) {
        EntryModel::Text(name)
    } else if is_mapping_file(name) {
        EntryModel::Mapping(name)
    } else {
        EntryModel::Other
    }
}

/// What an archive entry is.
#[derive(Debug, Clone, PartialEq, Eq)]
pub enum EntryKind {
    Notes(String),
    Data(String),
    Text(String),
    Mapping(String),
    Other,
}

impl View for EntryKind {
    type V = EntryModel;

    open spec fn view(&self) -> EntryModel {
        match self {
            EntryKind::Notes(s) => EntryModel::Notes(s@),
            EntryKind::Data(s) => EntryModel::Data(s@),
            EntryKind::Text(s) => EntryModel::Text(s@),
            EntryKind::Mapping(s) => EntryModel::Mapping(s@),
            EntryKind::Other => EntryModel::Other,
        }
    }
}

/// Whether `a` from `start` holds exactly `b`.
fn chars_match_at(a: &Vec<char>, start: usize, b: &Vec<char>) -> (r: bool)
    requires
        start <= a@.len(),
    ensures
        r == (a@.skip(start as int) == b@),
{
    if a.len() - start != b.len() {
        proof {
            assert(a@.skip(start as int).len() != b@.len());
        }
        return false;
    }
    let la = a.len();
    let mut i: usize = 0;
    while i < b.len()
        invariant
            la == a@.len(),
            start <= a@.len(),
            a@.len() - start == b@.len(),
            i <= b@.len(),
            forall|j: int| 0 <= j < i ==> a@[start + j] == b@[j],
        decreases b@.len() - i,
    {
        if a[start + i] != b[i] {
            proof {
                assert(a@.skip(start as int)[i as int] != b@[i as int]);
            }
            return false;
        }
        i = i + 1;
    }
    proof {
        assert(a@.skip(start as int) =~= b@);
    }
    true
}

/// Classifies an archive entry by its name.
pub fn classify_entry(name: &str) -> (r: EntryKind)
    ensures
        r@ == entry_kind(name@),
{
    let cs = chars_of(name);
    let n = cs.len();
    let mut d: usize = n;
    while d > 0 && cs[d - 1] != '.' && cs[d - 1] != '/'
        invariant
            cs@ == name@,
            n == cs@.len(),
            d <= n,
            forall|j: int| d <= j < n ==> cs@[j] != '.' && cs@[j] != '/',
        decreases d,
    {
        d = d - 1;
    }
    let has_dot = d > 1 && cs[d - 1] == '.' && cs[d - 2] != '/';
    proof {
        if has_dot {
            assert(entry_ext_dot(name@, d - 1));
            assert forall|x: int| entry_ext_dot(name@, x) implies x == d - 1 by {
                if x < d - 1 {
                    assert(name@[d - 1] == '.');
                }
                if x > d - 1 {
                    assert(name@[x] == '.');
                }
            }
        } else {
            assert forall|x: int| !entry_ext_dot(name@, x) by {
                if entry_ext_dot(name@, x) {
                    if x < d - 1 {
                        assert(d >= 1);
                        assert(name@[d - 1] == '.' || name@[d - 1] == '/');
                    }
                    if x == d - 1 {
                        assert(d <= 1 || name@[d - 2] == '/');
                    }
                }
            }
        }
    }
    let gcno: Vec<char> = vec!['g', 'c', 'n', 'o'];
    let gcda: Vec<char> = vec!['g', 'c', 'd', 'a'];
    let info: Vec<char> = vec!['i', 'n', 'f', 'o'];
    if has_dot {
        let stem = string_of(cs.as_slice().split_at(d - 1).0);
        proof {
            assert(entry_stem(name@) == name@.take(d - 1));
        }
        if chars_match_at(&cs, d, &gcno) {
            return EntryKind::Notes(stem);
        }
        if chars_match_at(&cs, d, &gcda) {
            return EntryKind::Data(stem);
        }
        if chars_match_at(&cs, d, &info) {
            return EntryKind::Text(string_of(cs.as_slice()));
        }
    }
    let mapping: Vec<char> = vec![
        'l', 'i', 'n', 'k', 'e', 'd', '-', 'f', 'i', 'l', 'e', 's', '-', 'm', 'a', 'p', '.', 'j', 's', 'o', 'n',
    ];
    proof {
        assert(mapping@ =~= mapping_file_name());
    }
    let m = mapping.len();
    if n >= m && chars_match_at(&cs, n - m, &mapping) && (n == m || cs[n - m - 1] == '/') {
        return EntryKind::Mapping(string_of(cs.as_slice()));
    }
    EntryKind::Other
}

/// The inputs that own each entry, in input order.
pub open spec fn owners(m: StrMap<Vec<usize>>) -> Map<Seq<char>, Seq<usize>> {
    m@.map_values(|v: Vec<usize>| v@)
}

/// The inputs that own `k`; none where it has no owner.
pub open spec fn owners_of(m: Map<Seq<char>, Seq<usize>>, k: Seq<char>) -> Seq<usize> {
    if m.contains_key(k) {
        m[k]
    } else {
        Seq::empty()
    }
}

/// Adds `archive` to the owners of `key`.
fn push_owner(m: &mut StrMap<Vec<usize>>, key: String, archive: usize)
    ensures
        owners(*final(m)) == owners(*old(m)).insert(key@, owners_of(owners(*old(m)), key@).push(archive)),
{
    let ghost before = owners(*m);
    let ghost old_map = m@;
    let mut v = match m.insert(key.clone(), Vec::new()) {
        Some(v) => v,
        None => Vec::new(),
    };
    proof {
        if before.contains_key(key@) {
            assert(old_map.contains_key(key@));
            assert(v@ == owners_of(before, key@));
        } else {
            assert(v@ =~= owners_of(before, key@));
        }
    }
    v.push(archive);
    m.insert(key, v);
    proof {
        assert(owners(*m) =~= before.insert(key@, owners_of(before, key@).push(archive)));
    }
}

/// Which inputs own which entries.
pub struct ExplorationIndex {
    /// The input of each notes stem; a later input replaces an earlier one.
    pub gcnos: StrMap<usize>,
    /// The inputs of each data stem, in input order.
    pub gcdas: StrMap<Vec<usize>>,
    /// The inputs of each text coverage file, in input order.
    pub infos: StrMap<Vec<usize>>,
    /// The first mapping file found, and its input.
    pub mapping: Option<(String, usize)>,
}

/// The content of an optional (name, input) pair.
pub open spec fn mapping_view(m: Option<(String, usize)>) -> Option<(Seq<char>, usize)> {
    match m {
        Some(p) => Some((p.0@, p.1)),
        None => None,
    }
}

/// The parse job of a notes stem, as (stem, notes input, data input,
/// position among the data inputs).
pub type JobModel = (Seq<char>, usize, Option<usize>, int);

/// The jobs of one notes stem: one for each input that owns a data entry of
/// the same stem, in input order; else one bare notes job, unless orphan
/// notes are ignored.
pub open spec fn jobs_for(stem: Seq<char>, notes: usize, data: Map<Seq<char>, Seq<usize>>, ignore_orphan: bool) -> Seq<JobModel> {
    if data.contains_key(stem) {
        Seq::new(data[stem].len(), |n: int| (stem, notes, Some(data[stem][n]), n))
    } else if ignore_orphan {
        Seq::empty()
    } else {
        seq![(stem, notes, None, 0int)]
    }
}

/// The jobs of the first `k` notes stems, in order.
pub open spec fn planned(index: ExplorationIndex, ignore_orphan: bool, k: nat) -> Seq<JobModel>
    decreases k,
{
    if k == 0 {
        Seq::empty()
    } else {
        planned(index, ignore_orphan, (k - 1) as nat) + jobs_for(
            index.gcnos.key_at(k - 1),
            index.gcnos.value_at(k - 1),
            owners(index.gcdas),
            ignore_orphan,
        )
    }
}

/// The jobs of one text entry: one per owning input, in input order.
pub open spec fn text_jobs_for(name: Seq<char>, archs: Seq<usize>) -> Seq<(Seq<char>, usize)> {
    Seq::new(archs.len(), |n: int| (name, archs[n]))
}

/// The text jobs of the first `k` text entries, in order.
pub open spec fn texts_planned(index: ExplorationIndex, k: nat) -> Seq<(Seq<char>, usize)>
    decreases k,
{
    if k == 0 {
        Seq::empty()
    } else {
        texts_planned(index, (k - 1) as nat) + text_jobs_for(index.infos.key_at(k - 1), index.infos.value_at(k - 1)@)
    }
}

/// A parse job for a notes stem.
#[derive(Debug, Clone, PartialEq, Eq)]
pub struct JobPlan {
    pub stem: String,
    /// The input that holds the notes entry.
    pub notes_archive: usize,
    /// The input that holds the data entry; none for bare notes.
    pub data_archive: Option<usize>,
    /// The position of the data input among those of the stem: the job's
    /// files are numbered `num + 1`.
    pub num: usize,
}

impl View for JobPlan {
    type V = JobModel;

    open spec fn view(&self) -> JobModel {
        (self.stem@, self.notes_archive, self.data_archive, self.num as int)
    }
}

/// Why a set of inputs cannot be processed.
#[derive(Debug, Clone, PartialEq, Eq)]
pub enum ProducerError {
    /// There is neither a notes entry nor a text coverage entry.
    NothingToParse,
}

/// The kinds of output that the external dump tool writes for a job.
#[derive(Debug, Clone, Copy, PartialEq, Eq, Structural)]
pub enum GcovType {
    Unknown,
    /// One output file per notes file.
    SingleFile,
    /// One output file per source file.
    MultipleFiles,
}

/// The output kind once a job has run: decided on the first job, by
/// whether the single output file exists, and kept after that.
pub fn next_gcov_type(current: GcovType, single_output_exists: bool) -> (r: GcovType)
    ensures
        current == GcovType::Unknown ==> r == (if single_output_exists {
            GcovType::SingleFile
        } else {
            GcovType::MultipleFiles
        }),
        current != GcovType::Unknown ==> r == current,
{
    match current {
        GcovType::Unknown => if single_output_exists {
            GcovType::SingleFile
        } else {
            GcovType::MultipleFiles
        },
        other => other,
    }
}

/// Whether a planned job is enqueued once its files were fetched, or not.
pub open spec fn would_emit(job: JobModel, fetched: bool, ignore_orphan: bool) -> bool {
    match job.2 {
        Some(_) => fetched || (job.3 == 0 && !ignore_orphan),
        None => fetched,
    }
}

/// Whether a planned job is enqueued once its files were fetched: a paired
/// job when its data was fetched, and the first paired job of a stem also
/// without data unless orphan notes are ignored; a bare notes job when its
/// notes were fetched.
pub fn emit_job(job: &JobPlan, fetched: bool, ignore_orphan: bool) -> (r: bool)
    ensures
        r == would_emit(job@, fetched, ignore_orphan),
{
    match job.data_archive {
        Some(_) => fetched || (job.num == 0 && !ignore_orphan),
        None => fetched,
    }
}

impl ExplorationIndex {
    /// An index of no entries.
    pub fn new() -> (r: ExplorationIndex)
        ensures
            r.gcnos@ == Map::<Seq<char>, usize>::empty(),
            owners(r.gcdas) == Map::<Seq<char>, Seq<usize>>::empty(),
            owners(r.infos) == Map::<Seq<char>, Seq<usize>>::empty(),
            r.mapping is None,
    {
        let r = ExplorationIndex { gcnos: StrMap::new(), gcdas: StrMap::new(), infos: StrMap::new(), mapping: None };
        assert(owners(r.gcdas) =~= Map::<Seq<char>, Seq<usize>>::empty());
        assert(owners(r.infos) =~= Map::<Seq<char>, Seq<usize>>::empty());
        r
    }

    /// Records that input `archive` holds the entry `name`.
    pub fn record(&mut self, archive: usize, name: &str)
        ensures
            match entry_kind(name@) {
                EntryModel::Notes(stem) => final(self).gcnos@ == old(self).gcnos@.insert(stem, archive),
                _ => final(self).gcnos@ == old(self).gcnos@,
            },
            match entry_kind(name@) {
                EntryModel::Data(stem) => owners(final(self).gcdas) == owners(old(self).gcdas).insert(
                    stem,
                    owners_of(owners(old(self).gcdas), stem).push(archive),
                ),
                _ => owners(final(self).gcdas) == owners(old(self).gcdas),
            },
            match entry_kind(name@) {
                EntryModel::Text(n) => owners(final(self).infos) == owners(old(self).infos).insert(
                    n,
                    owners_of(owners(old(self).infos), n).push(archive),
                ),
                _ => owners(final(self).infos) == owners(old(self).infos),
            },
            match entry_kind(name@) {
                EntryModel::Mapping(n) => mapping_view(final(self).mapping) == (if old(self).mapping is None {
                    Some((n, archive))
                } else {
                    mapping_view(old(self).mapping)
                }),
                _ => final(self).mapping == old(self).mapping,
            },
    {
        match classify_entry(name) {
            EntryKind::Notes(stem) => {
                self.gcnos.insert(stem, archive);
            },
            EntryKind::Data(stem) => {
                push_owner(&mut self.gcdas, stem, archive);
            },
            EntryKind::Text(n) => {
                push_owner(&mut self.infos, n, archive);
            },
            EntryKind::Mapping(n) => {
                if self.mapping.is_none() {
                    self.mapping = Some((n, archive));
                }
            },
            EntryKind::Other => {},
        }
    }

    /// Checks that there is something to parse: a notes entry or a text
    /// coverage entry.
    pub fn check(&self) -> (r: Result<(), ProducerError>)
        ensures
            r is Err <==> (self.gcnos@.dom().is_empty() && owners(self.infos).dom().is_empty()),
    {
        let n = self.gcnos.len();
        let m = self.infos.len();
        proof {
            if n > 0 {
                assert(self.gcnos@.dom().contains(self.gcnos.key_at(0)));
            }
            if m > 0 {
                assert(owners(self.infos).dom().contains(self.infos.key_at(0)));
            }
            if n == 0 {
                assert(self.gcnos@.dom() =~= Set::empty());
            }
            if m == 0 {
                assert(owners(self.infos).dom() =~= Set::empty());
            }
        }
        if n == 0 && m == 0 {
            Err(ProducerError::NothingToParse)
        } else {
            Ok(())
        }
    }

    /// The parse jobs of the notes stems: for each stem, in the order the
    /// stems were first recorded, one job per input that owns a data entry
    /// of the stem, else a bare notes job unless `ignore_orphan` holds.
    #[verifier::loop_isolation(false)]
    pub fn plan_jobs(&self, ignore_orphan: bool) -> (r: Vec<JobPlan>)
        ensures
            r@.map_values(|j: JobPlan| j@) == planned(*self, ignore_orphan, self.gcnos.spec_len()),
    {
        let mut jobs: Vec<JobPlan> = Vec::new();
        let n = self.gcnos.len();
        let mut i: usize = 0;
        while i < n
            invariant
                i <= n,
                n == self.gcnos.spec_len(),
                jobs@.map_values(|j: JobPlan| j@) == planned(*self, ignore_orphan, i as nat),
            decreases n - i,
        {
            let (stem, notes) = self.gcnos.entry(i);
            let ghost before = jobs@.map_values(|j: JobPlan| j@);
            let ghost data = owners(self.gcdas);
            match self.gcdas.get(stem.as_str()) {
                Some(archs) => {
                    proof {
                        assert(data.contains_key(stem@));
                        assert(data[stem@] == archs@);
                    }
                    let mut num: usize = 0;
                    while num < archs.len()
                        invariant
                            num <= archs@.len(),
                            data.contains_key(stem@),
                            data[stem@] == archs@,
                            jobs@.map_values(|j: JobPlan| j@) == before + jobs_for(stem@, *notes, data, ignore_orphan).take(num as int),
                        decreases archs@.len() - num,
                    {
                        let ghost jf = jobs_for(stem@, *notes, data, ignore_orphan);
                        let ghost prev = jobs@.map_values(|j: JobPlan| j@);
                        let job = JobPlan { stem: stem.clone(), notes_archive: *notes, data_archive: Some(archs[num]), num };
                        proof {
                            assert(jf[num as int] == job@);
                        }
                        jobs.push(job);
                        num = num + 1;
                        proof {
                            assert(jobs@.map_values(|j: JobPlan| j@) =~= prev.push(job@));
                            assert(jf.take(num as int) =~= jf.take(num - 1).push(job@));
                            assert(jobs@.map_values(|j: JobPlan| j@) =~= before + jobs_for(stem@, *notes, data, ignore_orphan).take(num as int));
                        }
                    }
                    proof {
                        assert(jobs_for(stem@, *notes, data, ignore_orphan).take(num as int) =~= jobs_for(stem@, *notes, data, ignore_orphan));
                    }
                },
                None => {
                    if !ignore_orphan {
                        jobs.push(JobPlan { stem: stem.clone(), notes_archive: *notes, data_archive: None, num: 0 });
                    }
                    proof {
                        assert(jobs@.map_values(|j: JobPlan| j@) =~= before + jobs_for(stem@, *notes, data, ignore_orphan));
                    }
                },
            }
            i = i + 1;
        }
        jobs
    }

    /// The text coverage jobs: for each text entry, in the order the
    /// entries were first recorded, one job per input that owns it, in input
    /// order.
    #[verifier::loop_isolation(false)]
    pub fn text_jobs(&self) -> (r: Vec<(String, usize)>)
        ensures
            r@.map_values(|j: (String, usize)| (j.0@, j.1)) == texts_planned(*self, self.infos.spec_len()),
    {
        let mut jobs: Vec<(String, usize)> = Vec::new();
        let n = self.infos.len();
        let mut i: usize = 0;
        while i < n
            invariant
                i <= n,
                n == self.infos.spec_len(),
                jobs@.map_values(|j: (String, usize)| (j.0@, j.1)) == texts_planned(*self, i as nat),
            decreases n - i,
        {
            let (name, archs) = self.infos.entry(i);
            let ghost before = jobs@.map_values(|j: (String, usize)| (j.0@, j.1));
            let ghost tj = text_jobs_for(name@, archs@);
            let mut k: usize = 0;
            while k < archs.len()
                invariant
                    k <= archs@.len(),
                    tj == text_jobs_for(name@, archs@),
                    jobs@.map_values(|j: (String, usize)| (j.0@, j.1)) == before + tj.take(k as int),
                decreases archs@.len() - k,
            {
                let ghost prev = jobs@.map_values(|j: (String, usize)| (j.0@, j.1));
                let job = (name.clone(), archs[k]);
                jobs.push(job);
                k = k + 1;
                proof {
                    assert(jobs@.map_values(|j: (String, usize)| (j.0@, j.1)) =~= prev.push((name@, archs@[k - 1])));
                    assert(tj.take(k as int) =~= tj.take(k - 1).push((name@, archs@[k - 1])));
                }
            }
            proof {
                assert(tj.take(k as int) =~= tj);
                assert(self.infos.value_at(i as int) == *archs);
            }
            i = i + 1;
        }
        jobs
    }
}

proof fn lemma_filter_all<A>(s: Seq<A>, pred: spec_fn(A) -> bool)
    requires
        forall|i: int| 0 <= i < s.len() ==> pred(#[trigger] s[i]),
    ensures
        s.filter(pred) == s,
    decreases s.len(),
{
    reveal(Seq::filter);
    if s.len() > 0 {
        lemma_filter_all(s.drop_last(), pred);
        assert(s.drop_last().push(s.last()) =~= s);
    }
}

proof fn lemma_filter_none<A>(s: Seq<A>, pred: spec_fn(A) -> bool)
    requires
        forall|i: int| 0 <= i < s.len() ==> !pred(#[trigger] s[i]),
    ensures
        s.filter(pred) == Seq::<A>::empty(),
    decreases s.len(),
{
    reveal(Seq::filter);
    if s.len() > 0 {
        lemma_filter_none(s.drop_last(), pred);
    }
}

/// Whether a job is one of stem `stem`.
pub open spec fn stem_is(stem: Seq<char>) -> spec_fn(JobModel) -> bool {
    |j: JobModel| j.0 == stem
}

/// The jobs of the stem `stem` among `jobs`.
pub open spec fn jobs_of_stem(jobs: Seq<JobModel>, stem: Seq<char>) -> Seq<JobModel> {
    jobs.filter(stem_is(stem))
}

proof fn lemma_planned_prefix(index: ExplorationIndex, ignore_orphan: bool, i: int, k: nat)
    requires
        index.gcnos.keys_distinct(),
        0 <= i < index.gcnos.spec_len(),
        k <= index.gcnos.spec_len(),
    ensures
        jobs_of_stem(planned(index, ignore_orphan, k), index.gcnos.key_at(i)) == (if i < k {
            jobs_for(index.gcnos.key_at(i), index.gcnos.value_at(i), owners(index.gcdas), ignore_orphan)
        } else {
            Seq::<JobModel>::empty()
        }),
    decreases k,
{
    let stem = index.gcnos.key_at(i);
    let pred = stem_is(stem);
    if k == 0 {
        reveal(Seq::filter);
    } else {
        lemma_planned_prefix(index, ignore_orphan, i, (k - 1) as nat);
        let key = index.gcnos.key_at(k - 1);
        let prev = planned(index, ignore_orphan, (k - 1) as nat);
        let last = jobs_for(key, index.gcnos.value_at(k - 1), owners(index.gcdas), ignore_orphan);
        assert(planned(index, ignore_orphan, k) == prev + last);
        Seq::filter_distributes_over_add(prev, last, pred);
        assert(forall|x: int| 0 <= x < last.len() ==> (#[trigger] last[x]).0 == key);
        let before = prev.filter(pred);
        if k - 1 == i {
            lemma_filter_all(last, pred);
            assert(before == Seq::<JobModel>::empty());
            assert(before + last =~= last);
        } else {
            assert(key != stem);
            lemma_filter_none(last, pred);
            assert(before + Seq::<JobModel>::empty() =~= before);
        }
    }
}

/// Pairing neither doubles nor drops a job: the plan holds, for each notes
/// stem, exactly that stem's jobs, one per input that owns a data entry of
/// the stem, in input order (or a single bare notes job when no input does
/// and orphan notes are not ignored).
pub proof fn lemma_plan_per_stem(index: ExplorationIndex, ignore_orphan: bool, i: int)
    requires
        index.gcnos.keys_distinct(),
        0 <= i < index.gcnos.spec_len(),
    ensures
        jobs_of_stem(planned(index, ignore_orphan, index.gcnos.spec_len()), index.gcnos.key_at(i))
            == jobs_for(index.gcnos.key_at(i), index.gcnos.value_at(i), owners(index.gcdas), ignore_orphan),
{
    lemma_planned_prefix(index, ignore_orphan, i, index.gcnos.spec_len());
}

/// How many of the first `n` jobs are enqueued, where `got[i]` tells
/// whether job `i` had its files fetched.
pub open spec fn emitted_count(jobs: Seq<JobModel>, got: Seq<bool>, ignore_orphan: bool, n: nat) -> nat
    decreases n,
{
    if n == 0 {
        0
    } else {
        emitted_count(jobs, got, ignore_orphan, (n - 1) as nat) + if would_emit(
            jobs[n - 1],
            got[n - 1],
            ignore_orphan,
        ) {
            1nat
        } else {
            0nat
        }
    }
}

/// How many of the first `n` outcomes are fetches.
pub open spec fn fetched_count(got: Seq<bool>, n: nat) -> nat
    decreases n,
{
    if n == 0 {
        0
    } else {
        fetched_count(got, (n - 1) as nat) + if got[n - 1] {
            1nat
        } else {
            0nat
        }
    }
}

proof fn lemma_emitted_prefix(
    stem: Seq<char>,
    notes: usize,
    data: Map<Seq<char>, Seq<usize>>,
    got: Seq<bool>,
    ignore_orphan: bool,
    n: nat,
)
    requires
        data.contains_key(stem),
        1 <= n <= data[stem].len(),
        got.len() == data[stem].len(),
    ensures
        emitted_count(jobs_for(stem, notes, data, ignore_orphan), got, ignore_orphan, n) == fetched_count(got, n)
            + if !got[0] && !ignore_orphan {
            1nat
        } else {
            0nat
        },
    decreases n,
{
    let jobs = jobs_for(stem, notes, data, ignore_orphan);
    assert(jobs[n - 1] == (stem, notes, Some(data[stem][n - 1]), n - 1));
    assert(emitted_count(jobs, got, ignore_orphan, n) == emitted_count(jobs, got, ignore_orphan, (n - 1) as nat)
        + if would_emit(jobs[n - 1], got[n - 1], ignore_orphan) { 1nat } else { 0nat });
    assert(fetched_count(got, n) == fetched_count(got, (n - 1) as nat) + if got[n - 1] { 1nat } else { 0nat });
    if n > 1 {
        lemma_emitted_prefix(stem, notes, data, got, ignore_orphan, (n - 1) as nat);
    } else {
        assert(emitted_count(jobs, got, ignore_orphan, 0) == 0);
        assert(fetched_count(got, 0) == 0);
    }
}

/// The jobs a notes stem with data makes, once fetched: one for each input
/// whose data entry was fetched, and one more when the first input's was
/// not and orphan notes are not ignored.
pub proof fn lemma_emitted_per_stem(
    stem: Seq<char>,
    notes: usize,
    data: Map<Seq<char>, Seq<usize>>,
    got: Seq<bool>,
    ignore_orphan: bool,
)
    requires
        data.contains_key(stem),
        data[stem].len() > 0,
        got.len() == data[stem].len(),
    ensures
        jobs_for(stem, notes, data, ignore_orphan).len() == data[stem].len(),
        emitted_count(jobs_for(stem, notes, data, ignore_orphan), got, ignore_orphan, got.len()) == fetched_count(
            got,
            got.len(),
        ) + if !got[0] && !ignore_orphan {
            1nat
        } else {
            0nat
        },
{
    lemma_emitted_prefix(stem, notes, data, got, ignore_orphan, got.len());
}

/// A notes stem without data makes one bare notes job when orphan notes are
/// not ignored, enqueued when its notes were fetched, and none otherwise.
pub proof fn lemma_orphan_stem(
    stem: Seq<char>,
    notes: usize,
    data: Map<Seq<char>, Seq<usize>>,
    got: Seq<bool>,
    ignore_orphan: bool,
)
    requires
        !data.contains_key(stem),
        got.len() == jobs_for(stem, notes, data, ignore_orphan).len(),
    ensures
        jobs_for(stem, notes, data, ignore_orphan).len() == (if ignore_orphan {
            0nat
        } else {
            1nat
        }),
        emitted_count(jobs_for(stem, notes, data, ignore_orphan), got, ignore_orphan, got.len()) == fetched_count(
            got,
            got.len(),
        ),
{
    let jobs = jobs_for(stem, notes, data, ignore_orphan);
    if got.len() == 1 {
        assert(jobs[0] == (stem, notes, None::<usize>, 0int));
        assert(emitted_count(jobs, got, ignore_orphan, 1) == emitted_count(jobs, got, ignore_orphan, 0)
            + if would_emit(jobs[0], got[0], ignore_orphan) { 1nat } else { 0nat });
        assert(fetched_count(got, 1) == fetched_count(got, 0) + if got[0] { 1nat } else { 0nat });
        assert(emitted_count(jobs, got, ignore_orphan, 0) == 0);
        assert(fetched_count(got, 0) == 0);
    } else {
        assert(emitted_count(jobs, got, ignore_orphan, 0) == 0);
        assert(fetched_count(got, 0) == 0);
    }
}

} // verus!
