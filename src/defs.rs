//! The coverage data model and the parse jobs handed to consumers.

use std::collections::BTreeMap;
use std::path::PathBuf;
use std::sync::Arc;
use vstd::prelude::*;

use crate::strmap::StrMap;

verus! {

/// A function of a source file: the line it starts on and whether it ran.
#[derive(Debug, Clone, Copy, PartialEq, Eq, Structural)]
pub struct Function {
    pub start: u32,
    pub executed: bool,
}

/// Functions by name.
pub type FunctionMap = StrMap<Function>;

/// The coverage of one source file.
#[derive(Debug, Clone, PartialEq)]
pub struct CovResult {
    /// Execution count of each line.
    pub lines: BTreeMap<u32, u64>,
    /// Whether each branch (line, branch index) was taken.
    pub branches: BTreeMap<(u32, u32), bool>,
    pub functions: FunctionMap,
}

/// The mathematical content of a `CovResult`.
pub struct CovModel {
    pub lines: Map<u32, u64>,
    pub branches: Map<(u32, u32), bool>,
    pub functions: Map<Seq<char>, Function>,
}

impl CovResult {
    /// A result with no lines, branches or functions.
    pub fn new() -> (r: CovResult)
        ensures
            r@.lines == Map::<u32, u64>::empty(),
            r@.branches == Map::<(u32, u32), bool>::empty(),
            r@.functions == Map::<Seq<char>, Function>::empty(),
    {
        CovResult { lines: BTreeMap::new(), branches: BTreeMap::new(), functions: StrMap::new() }
    }
}

impl View for CovResult {
    type V = CovModel;

    open spec fn view(&self) -> CovModel {
        CovModel { lines: self.lines@, branches: self.branches@, functions: self.functions@ }
    }
}

impl PartialEq for StrMap<Function> {
    #[verifier::loop_isolation(false)]
    fn eq(&self, o: &Self) -> (r: bool) {
        let n = self.len();
        let m = o.len();
        let mut i: usize = 0;
        while i < n
            invariant
                i <= n,
                n == self.spec_len(),
                forall|j: int| 0 <= j < i ==> o@.contains_key(#[trigger] self.key_at(j))
                    && o@[self.key_at(j)] == self.value_at(j),
            decreases self.spec_len() - i,
        {
            let (k, v) = self.entry(i);
            proof {
                assert(self@.contains_key(self.key_at(i as int)));
            }
            match o.get(k.as_str()) {
                Some(w) => {
                    if *w != *v {
                        proof { assert(self@[k@] != o@[k@]); }
                        return false;
                    }
                },
                None => {
                    proof { assert(!o@.contains_key(k@)); }
                    return false;
                },
            }
            i = i + 1;
        }
        let mut i: usize = 0;
        while i < m
            invariant
                i <= m,
                m == o.spec_len(),
                forall|j: int| 0 <= j < i ==> self@.contains_key(#[trigger] o.key_at(j)),
            decreases o.spec_len() - i,
        {
            let (k, _) = o.entry(i);
            proof {
                assert(o@.contains_key(o.key_at(i as int)));
            }
            if !self.contains_key(k.as_str()) {
                proof { assert(!self@.contains_key(k@)); }
                return false;
            }
            i = i + 1;
        }
        proof {
            assert forall|k: Seq<char>| self@.contains_key(k) implies o@.contains_key(k) && o@[k] == self@[k] by {
                let j = choose|j: int| 0 <= j < self.spec_len() && self.key_at(j) == k;
            }
            assert forall|k: Seq<char>| o@.contains_key(k) implies self@.contains_key(k) by {
                let j = choose|j: int| 0 <= j < o.spec_len() && o.key_at(j) == k;
            }
            assert(self@ =~= o@);
        }
        true
    }
}

impl vstd::std_specs::cmp::PartialEqSpecImpl for StrMap<Function> {
    open spec fn obeys_eq_spec() -> bool {
        true
    }

    open spec fn eq_spec(&self, o: &Self) -> bool {
        self@ == o@
    }
}

/// The format of a parse job's input.
#[allow(non_camel_case_types)]
#[derive(Debug, PartialEq, Eq, Structural, Copy, Clone)]
pub enum ItemFormat {
    GCNO,
    INFO,
    JACOCO_XML,
}

/// `std::path::PathBuf`, carried through parse jobs as it is.
#[verifier::external_type_specification]
#[verifier::external_body]
pub struct ExPathBuf(PathBuf);

/// A notes file and one data file, both held in memory.
#[derive(Debug)]
pub struct GcnoBuffers {
    pub stem: String,
    pub gcno_buf: Arc<Vec<u8>>,
    pub gcda_buf: Vec<u8>,
}

/// Where a parse job finds its input.
#[derive(Debug)]
pub enum ItemType {
    Path(PathBuf),
    Content(Vec<u8>),
    Buffers(GcnoBuffers),
}

/// One parse job: its format, its input, and the name of the input it came from.
#[derive(Debug)]
pub struct WorkItem {
    pub format: ItemFormat,
    pub item: ItemType,
    pub name: String,
}

/// Coverage results by file key.
pub type CovResultMap = StrMap<CovResult>;

} // verus!
