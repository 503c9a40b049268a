//! Plans: what is put into which worksheet, from which sources.

use crate::map::TextMap;
use crate::rewrite::tables_view;
use crate::text::texts_of;
use crate::value::{Value, ValueView};
use vstd::prelude::*;

verus! {

/// A source of a plan: its file, the worksheet and the country that it is for, what was loaded,
/// when the file was modified and its fingerprint.
#[derive(Clone, Debug)]
pub struct Source {
    pub path: String,
    pub sheet: String,
    pub country: String,
    pub rows: usize,
    pub columns: usize,
    pub converted: usize,
    pub encoding: String,
    pub modified: String,
    pub hash: String,
}

/// A source of a plan, in contracts.
pub struct SourceView {
    pub path: Seq<char>,
    pub sheet: Seq<char>,
    pub country: Seq<char>,
    pub rows: nat,
    pub columns: nat,
    pub converted: nat,
    pub encoding: Seq<char>,
    pub modified: Seq<char>,
    pub hash: Seq<char>,
}

impl View for Source {
    type V = SourceView;

    open spec fn view(&self) -> SourceView {
        SourceView {
            path: self.path@,
            sheet: self.sheet@,
            country: self.country@,
            rows: self.rows as nat,
            columns: self.columns as nat,
            converted: self.converted as nat,
            encoding: self.encoding@,
            modified: self.modified@,
            hash: self.hash@,
        }
    }
}

/// The sources of a list, each by its view.
pub open spec fn sources_view(sources: Seq<Source>) -> Seq<SourceView> {
    Seq::new(sources.len(), |i: int| sources[i]@)
}

/// A plan: the workbook and what it is for, the folder it is in, the sources, the warnings, the
/// fingerprint of the workbook and the rows for its worksheets.
#[derive(Clone, Debug)]
pub struct Plan {
    pub target: String,
    pub station: String,
    pub code: String,
    pub date: String,
    pub root: String,
    pub sources: Vec<Source>,
    pub warnings: Vec<String>,
    pub target_hash: String,
    pub sheets: TextMap<Vec<Vec<Value>>>,
}

/// A plan, in contracts. The worksheets stand in the order of their names.
pub struct PlanView {
    pub target: Seq<char>,
    pub station: Seq<char>,
    pub code: Seq<char>,
    pub date: Seq<char>,
    pub root: Seq<char>,
    pub sources: Seq<SourceView>,
    pub warnings: Seq<Seq<char>>,
    pub target_hash: Seq<char>,
    pub names: Seq<Seq<char>>,
    pub tables: Seq<Seq<Seq<ValueView>>>,
}

impl View for Plan {
    type V = PlanView;

    open spec fn view(&self) -> PlanView {
        PlanView {
            target: self.target@,
            station: self.station@,
            code: self.code@,
            date: self.date@,
            root: self.root@,
            sources: sources_view(self.sources@),
            warnings: texts_of(self.warnings@),
            target_hash: self.target_hash@,
            names: self.sheets.keys(),
            tables: tables_view(self.sheets.values()),
        }
    }
}

impl Plan {
    /// Whether the worksheets stand in the order of their names.
    pub open spec fn wf(&self) -> bool {
        self.sheets.wf()
    }
}

/// What filling a workbook came to.
#[derive(Clone, Debug)]
pub struct Outcome {
    pub target: String,
    pub backup: Option<String>,
    pub sheets: usize,
    pub converted: usize,
    pub message: String,
}

/// How many values were made numbers in the first `n` sources.
pub open spec fn converted_in(sources: Seq<SourceView>, n: nat) -> nat
    decreases n,
{
    if n == 0 {
        0
    } else {
        converted_in(sources, (n - 1) as nat) + sources[n - 1].converted
    }
}

/// How many values were made numbers in all sources, as far as that fits a machine word.
pub fn converted_total(sources: &Vec<Source>) -> (r: usize)
    ensures
        r == converted_in(sources_view(sources@), sources@.len()) % (usize::MAX as nat + 1),
{
    let ghost v = sources_view(sources@);
    let mut total: usize = 0;
    let mut i: usize = 0;
    assert(0nat % (usize::MAX as nat + 1) == 0) by (nonlinear_arith);
    while i < sources.len()
        invariant
            v == sources_view(sources@),
            i <= sources.len(),
            total == converted_in(v, i as nat) % (usize::MAX as nat + 1),
        decreases sources.len() - i,
    {
        proof {
            vstd::arithmetic::div_mod::lemma_add_mod_noop(
                converted_in(v, i as nat) as int,
                v[i as int].converted as int,
                usize::MAX as int + 1,
            );
            vstd::arithmetic::div_mod::lemma_small_mod(
                v[i as int].converted,
                usize::MAX as nat + 1,
            );
        }
        total = total.wrapping_add(sources[i].converted);
        i = i + 1;
    }
    total
}

/// The values that were made numbers are added up over the sources.
pub proof fn conversions_add_up(sources: Seq<SourceView>, more: SourceView)
    ensures
        converted_in(Seq::empty(), 0) == 0,
        converted_in(sources.push(more), sources.len() + 1) == converted_in(
            sources,
            sources.len(),
        ) + more.converted,
{
    first_sources_count(sources, more, sources.len());
}

proof fn first_sources_count(sources: Seq<SourceView>, more: SourceView, n: nat)
    requires
        n <= sources.len(),
    ensures
        converted_in(sources.push(more), n) == converted_in(sources, n),
    decreases n,
{
    if n > 0 {
        first_sources_count(sources, more, (n - 1) as nat);
    }
}

/// A source and a plan are seen as what they hold.
pub proof fn plans_are_seen_as_they_are(p: Plan, i: int, j: int)
    ensures
        p@.target == p.target@,
        p@.station == p.station@,
        p@.code == p.code@,
        p@.date == p.date@,
        p@.root == p.root@,
        p@.target_hash == p.target_hash@,
        p@.sources.len() == p.sources@.len(),
        p@.warnings.len() == p.warnings@.len(),
        0 <= j < p.warnings@.len() ==> p@.warnings[j] == p.warnings@[j]@,
        0 <= i < p.sources@.len() ==> {
            let s = p.sources@[i];
            let v = p@.sources[i];
            &&& v.path == s.path@
            &&& v.sheet == s.sheet@
            &&& v.country == s.country@
            &&& v.rows == s.rows
            &&& v.columns == s.columns
            &&& v.converted == s.converted
            &&& v.encoding == s.encoding@
            &&& v.modified == s.modified@
            &&& v.hash == s.hash@
        },
{
}

} // verus!
