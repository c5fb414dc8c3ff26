use crate::churn_map::{has_distinct_paths, ChurnEntry, ChurnMap};
use crate::text::{decimal, decimal_string};
use vstd::hash_map::StringHashMap;
use vstd::prelude::*;

verus! {

/// Number of commits in which a file appears as a changed regular file.
#[derive(Debug, Clone, Copy, PartialEq, Eq, Structural, PartialOrd, Ord, Default)]
pub struct Churn(pub u32);

impl View for Churn {
    type V = nat;

    open spec fn view(&self) -> nat {
        self.0 as nat
    }
}

impl Churn {
    /// The count itself.
    pub fn value(self) -> (n: u32)
        ensures
            n == self@,
    {
        self.0
    }

    /// The count in base ten.
    pub fn to_string(&self) -> (text: String)
        ensures
            text@ == decimal(self@),
            1 <= text@.len() <= 20,
    {
        decimal_string(self.0 as u64)
    }
}

impl From<u32> for Churn {
    fn from(src: u32) -> (churn: Churn)
        ensures
            churn@ == src,
    {
        Churn(src)
    }
}

impl vstd::std_specs::convert::FromSpecImpl<u32> for Churn {
    open spec fn obeys_from_spec() -> bool {
        true
    }

    open spec fn from_spec(src: u32) -> Churn {
        Churn(src)
    }
}

/// The square of the distance between the origin and the point with the given
/// coordinates.
pub open spec fn squared_distance(churn: nat, complexity: nat) -> nat {
    churn * churn + complexity * complexity
}

/// The distance of a file's point `(churn, complexity)` from the origin. It
/// is the square root of a whole number and is held exactly, as that number:
/// distances are ordered as their squares are.
#[derive(Debug, Clone, Copy, PartialEq, Eq, Structural)]
pub struct Magnitude {
    squared: u128,
}

impl View for Magnitude {
    type V = nat;

    /// The square of the distance.
    closed spec fn view(&self) -> nat {
        self.squared as nat
    }
}

impl Magnitude {
    /// The square of the distance.
    pub fn squared(self) -> (s: u128)
        ensures
            s == self@,
    {
        self.squared
    }

    /// Whether this distance is at least as long as `other`.
    pub fn at_least(self, other: Magnitude) -> (b: bool)
        ensures
            b == (self@ >= other@),
    {
        self.squared >= other.squared
    }
}

/// What is known of one file: how often it changed and how complex it is.
#[derive(Debug, Clone, PartialEq)]
pub struct FileMetrics {
    /// The path of the file within the repository.
    pub filename: String,
    pub churn: Churn,
    /// The cyclomatic complexity, summed over the units of the file: a
    /// whole number of paths through the code.
    pub complexity: u32,
}

/// What a `FileMetrics` says, as mathematical values.
pub struct FileFacts {
    pub filename: Seq<char>,
    pub churn: nat,
    pub complexity: nat,
}

impl View for FileMetrics {
    type V = FileFacts;

    open spec fn view(&self) -> FileFacts {
        FileFacts {
            filename: self.filename@,
            churn: self.churn@,
            complexity: self.complexity as nat,
        }
    }
}

/// The facts of each file of `files`, in the same order.
pub open spec fn facts_of(files: Seq<FileMetrics>) -> Seq<FileFacts> {
    files.map_values(|file: FileMetrics| file@)
}

/// No filename stands twice in `files`.
pub open spec fn has_distinct_filenames(files: Seq<FileFacts>) -> bool {
    forall|i: int, j: int|
        0 <= i < files.len() && 0 <= j < files.len() && (#[trigger] files[i]).filename == (
        #[trigger] files[j]).filename ==> i == j
}

impl FileMetrics {
    pub fn new(filename: String, churn: Churn, complexity: u32) -> (metric: FileMetrics)
        ensures
            metric.filename == filename,
            metric.churn == churn,
            metric.complexity == complexity,
    {
        FileMetrics { filename, churn, complexity }
    }

    /// The square of the file's distance from the origin.
    pub open spec fn spec_magnitude(&self) -> nat {
        squared_distance(self.churn@, self.complexity as nat)
    }

    /// The file's distance from the origin, the key by which files are ranked.
    pub fn magnitude(&self) -> (m: Magnitude)
        ensures
            m@ == self.spec_magnitude(),
    {
        let churn: u128 = self.churn.0 as u128;
        let complexity: u128 = self.complexity as u128;
        assert(churn * churn <= 0xffff_ffff * 0xffff_ffff) by (nonlinear_arith)
            requires
                churn <= 0xffff_ffff,
        ;
        assert(complexity * complexity <= 0xffff_ffff * 0xffff_ffff) by (nonlinear_arith)
            requires
                complexity <= 0xffff_ffff,
        ;
        Magnitude { squared: churn * churn + complexity * complexity }
    }

    /// The file as a point of the chart: churn across, complexity up.
    pub fn to_point(&self) -> (point: (u32, u32))
        ensures
            point == (self.churn.0, self.complexity),
    {
        (self.churn.0, self.complexity)
    }
}

/// A file that changed at least as often as another and is at least as
/// complex is at least as far from the origin.
pub proof fn lemma_magnitude_monotone(a: FileMetrics, b: FileMetrics)
    requires
        a.churn@ >= b.churn@,
        a.complexity >= b.complexity,
    ensures
        a.spec_magnitude() >= b.spec_magnitude(),
{
    let (p, q) = (a.churn@ as int, b.churn@ as int);
    let (r, s) = (a.complexity as int, b.complexity as int);
    assert(p * p >= q * q) by (nonlinear_arith)
        requires
            p >= q >= 0,
    ;
    assert(r * r >= s * s) by (nonlinear_arith)
        requires
            r >= s >= 0,
    ;
}

/// The distance from the origin does not tell churn from complexity: a file
/// with the two exchanged is as far away.
pub proof fn lemma_magnitude_symmetric(churn: nat, complexity: nat)
    ensures
        squared_distance(churn, complexity) == squared_distance(complexity, churn),
{
}

/// The sum of the churn of every file of `files`.
pub open spec fn total_churn(files: Seq<FileMetrics>) -> nat
    decreases files.len(),
{
    if files.len() == 0 {
        0
    } else {
        total_churn(files.drop_last()) + files.last().churn@
    }
}

/// The sum of the complexity of every file of `files`.
pub open spec fn total_complexity(files: Seq<FileMetrics>) -> nat
    decreases files.len(),
{
    if files.len() == 0 {
        0
    } else {
        total_complexity(files.drop_last()) + files.last().complexity as nat
    }
}

/// `m` is the largest churn among `files`.
pub open spec fn is_largest_churn(files: Seq<FileMetrics>, m: nat) -> bool {
    &&& exists|i: int| 0 <= i < files.len() && (#[trigger] files[i]).churn@ == m
    &&& forall|i: int| 0 <= i < files.len() ==> (#[trigger] files[i]).churn@ <= m
}

/// `m` is the largest complexity among `files`.
pub open spec fn is_largest_complexity(files: Seq<FileMetrics>, m: nat) -> bool {
    &&& exists|i: int| 0 <= i < files.len() && (#[trigger] files[i]).complexity as nat == m
    &&& forall|i: int| 0 <= i < files.len() ==> (#[trigger] files[i]).complexity as nat <= m
}

/// Neither sum exceeds what `files.len()` files can add up to.
pub proof fn lemma_totals_bounded(files: Seq<FileMetrics>)
    ensures
        total_churn(files) <= files.len() * 0xffff_ffff,
        total_complexity(files) <= files.len() * 0xffff_ffff,
    decreases files.len(),
{
    if files.len() > 0 {
        lemma_totals_bounded(files.drop_last());
        assert((files.len() - 1) * 0xffff_ffff + 0xffff_ffff == files.len() * 0xffff_ffff)
            by (nonlinear_arith);
    }
}

/// What a chart needs to know of a project to scale itself, as mathematical
/// values.
pub struct AggregateFacts {
    pub file_count: nat,
    pub max_churn: nat,
    pub churn_sum: nat,
    pub max_complexity: nat,
    pub complexity_sum: nat,
}

/// `facts` sums up `files`: their number, the sums of churn and complexity,
/// and the largest churn and the largest complexity, each with a margin of
/// 10 added so that no point touches the edge of a chart. Without files both
/// maxima are 10.
pub open spec fn summarises(facts: AggregateFacts, files: Seq<FileMetrics>) -> bool {
    &&& facts.file_count == files.len()
    &&& facts.churn_sum == total_churn(files)
    &&& facts.complexity_sum == total_complexity(files)
    &&& facts.max_churn >= 10
    &&& facts.max_complexity >= 10
    &&& files.len() == 0 ==> facts.max_churn == 10 && facts.max_complexity == 10
    &&& files.len() > 0 ==> is_largest_churn(files, (facts.max_churn - 10) as nat)
        && is_largest_complexity(files, (facts.max_complexity - 10) as nat)
}

/// The summary of a project by which a chart is scaled. It is computed from
/// the files and never set by hand.
#[derive(Debug, Clone, Copy)]
pub struct ProjectAggregate {
    file_count: usize,
    max_churn: u64,
    churn_sum: u128,
    max_complexity: u64,
    complexity_sum: u128,
}

impl View for ProjectAggregate {
    type V = AggregateFacts;

    closed spec fn view(&self) -> AggregateFacts {
        AggregateFacts {
            file_count: self.file_count as nat,
            max_churn: self.max_churn as nat,
            churn_sum: self.churn_sum as nat,
            max_complexity: self.max_complexity as nat,
            complexity_sum: self.complexity_sum as nat,
        }
    }
}

/// Half the mean of one measure over the files of a project, held exactly
/// as the fraction `numerator / denominator`: the sum of the measure over
/// twice the number of files. A project without files has no threshold, and
/// `denominator` is 0.
#[derive(Debug, Clone, Copy, PartialEq, Eq, Structural)]
pub struct Threshold {
    pub numerator: u128,
    pub denominator: u128,
}

/// The sizes that the summary of any project keeps to.
pub open spec fn within_limits(facts: AggregateFacts) -> bool {
    &&& facts.file_count <= usize::MAX
    &&& 10 <= facts.max_churn <= u32::MAX + 10
    &&& 10 <= facts.max_complexity <= u32::MAX + 10
    &&& facts.churn_sum <= facts.file_count * u32::MAX
    &&& facts.complexity_sum <= facts.file_count * u32::MAX
}

impl ProjectAggregate {
    #[verifier::type_invariant]
    spec fn limited(&self) -> bool {
        within_limits(self@)
    }

    /// The number of files.
    pub fn file_count(&self) -> (n: usize)
        ensures
            n == self@.file_count,
            within_limits(self@),
    {
        proof {
            use_type_invariant(self);
        }
        self.file_count
    }

    /// The largest churn, plus 10.
    pub fn max_churn(&self) -> (bound: u64)
        ensures
            bound == self@.max_churn,
            within_limits(self@),
    {
        proof {
            use_type_invariant(self);
        }
        self.max_churn
    }

    /// The sum of the churn of every file.
    pub fn churn_sum(&self) -> (sum: u128)
        ensures
            sum == self@.churn_sum,
            within_limits(self@),
    {
        proof {
            use_type_invariant(self);
        }
        self.churn_sum
    }

    /// The largest complexity, plus 10.
    pub fn max_complexity(&self) -> (bound: u64)
        ensures
            bound == self@.max_complexity,
            within_limits(self@),
    {
        proof {
            use_type_invariant(self);
        }
        self.max_complexity
    }

    /// The sum of the complexity of every file.
    pub fn complexity_sum(&self) -> (sum: u128)
        ensures
            sum == self@.complexity_sum,
            within_limits(self@),
    {
        proof {
            use_type_invariant(self);
        }
        self.complexity_sum
    }

    /// The churn threshold: the sum of churn, by the number of files, by 2.
    pub fn churn_threshold(&self) -> (threshold: Threshold)
        ensures
            threshold.numerator == self@.churn_sum,
            threshold.denominator == 2 * self@.file_count,
    {
        Threshold { numerator: self.churn_sum, denominator: 2 * (self.file_count as u128) }
    }

    /// The complexity threshold: the sum of complexity, by the number of
    /// files, by 2.
    pub fn complexity_threshold(&self) -> (threshold: Threshold)
        ensures
            threshold.numerator == self@.complexity_sum,
            threshold.denominator == 2 * self@.file_count,
    {
        Threshold { numerator: self.complexity_sum, denominator: 2 * (self.file_count as u128) }
    }
}

/// The files of one project with their metrics.
#[derive(Debug, Clone)]
pub struct ProjectMetrics {
    file_metrics: Vec<FileMetrics>,
}

impl View for ProjectMetrics {
    type V = Seq<FileMetrics>;

    closed spec fn view(&self) -> Seq<FileMetrics> {
        self.file_metrics@
    }
}

impl ProjectMetrics {
    pub fn new(metrics: Vec<FileMetrics>) -> (project: ProjectMetrics)
        ensures
            project@ == metrics@,
    {
        ProjectMetrics { file_metrics: metrics }
    }

    pub fn file_metrics(&self) -> (files: &Vec<FileMetrics>)
        ensures
            files@ == self@,
    {
        &self.file_metrics
    }

    /// The largest churn plus a margin of 10, so that no point touches the
    /// edge of a chart; 10 for a project without files.
    pub fn maximum_churn(&self) -> (bound: u64)
        ensures
            self@.len() == 0 ==> bound == 10,
            self@.len() > 0 ==> bound >= 10 && is_largest_churn(self@, (bound - 10) as nat),
    {
        if self.file_metrics.len() == 0 {
            return 10;
        }
        let mut largest: u32 = self.file_metrics[0].churn.0;
        let mut i: usize = 1;
        while i < self.file_metrics.len()
            invariant
                1 <= i <= self.file_metrics.len(),
                exists|k: int| 0 <= k < i && (#[trigger] self.file_metrics@[k]).churn@ == largest,
                forall|k: int| 0 <= k < i ==> (#[trigger] self.file_metrics@[k]).churn@ <= largest,
            decreases self.file_metrics.len() - i,
        {
            if self.file_metrics[i].churn.0 > largest {
                largest = self.file_metrics[i].churn.0;
            }
            i += 1;
        }
        largest as u64 + 10
    }

    /// The sum of the churn of every file.
    pub fn churn_sum(&self) -> (sum: u128)
        ensures
            sum == total_churn(self@),
    {
        let mut sum: u128 = 0;
        let mut i: usize = 0;
        while i < self.file_metrics.len()
            invariant
                i <= self.file_metrics.len(),
                sum == total_churn(self.file_metrics@.take(i as int)),
            decreases self.file_metrics.len() - i,
        {
            proof {
                lemma_totals_bounded(self.file_metrics@.take(i as int));
                assert(i * 0xffff_ffff <= 0xffff_ffff_ffff_ffff * 0xffff_ffff) by (nonlinear_arith)
                    requires
                        i <= 0xffff_ffff_ffff_ffff,
                ;
                assert(self.file_metrics@.take(i + 1).drop_last() == self.file_metrics@.take(
                    i as int,
                ));
            }
            sum = sum + self.file_metrics[i].churn.0 as u128;
            i += 1;
        }
        assert(self.file_metrics@.take(i as int) == self.file_metrics@);
        sum
    }

    /// The largest complexity plus a margin of 10, so that no point touches
    /// the edge of a chart; 10 for a project without files.
    pub fn maximum_complexity(&self) -> (bound: u64)
        ensures
            self@.len() == 0 ==> bound == 10,
            self@.len() > 0 ==> bound >= 10 && is_largest_complexity(self@, (bound - 10) as nat),
    {
        if self.file_metrics.len() == 0 {
            return 10;
        }
        let mut largest: u32 = self.file_metrics[0].complexity;
        let mut i: usize = 1;
        while i < self.file_metrics.len()
            invariant
                1 <= i <= self.file_metrics.len(),
                exists|k: int| 0 <= k < i && (#[trigger] self.file_metrics@[k]).complexity == largest,
                forall|k: int| 0 <= k < i ==> (#[trigger] self.file_metrics@[k]).complexity <= largest,
            decreases self.file_metrics.len() - i,
        {
            if self.file_metrics[i].complexity > largest {
                largest = self.file_metrics[i].complexity;
            }
            i += 1;
        }
        largest as u64 + 10
    }

    /// The summary by which a chart of the project is scaled.
    pub fn aggregate(&self) -> (summary: ProjectAggregate)
        ensures
            summarises(summary@, self@),
    {
        proof {
            lemma_totals_bounded(self@);
        }
        ProjectAggregate {
            file_count: self.file_metrics.len(),
            max_churn: self.maximum_churn(),
            churn_sum: self.churn_sum(),
            max_complexity: self.maximum_complexity(),
            complexity_sum: self.complexity_sum(),
        }
    }

    /// The sum of the complexity of every file.
    pub fn complexity_sum(&self) -> (sum: u128)
        ensures
            sum == total_complexity(self@),
    {
        let mut sum: u128 = 0;
        let mut i: usize = 0;
        while i < self.file_metrics.len()
            invariant
                i <= self.file_metrics.len(),
                sum == total_complexity(self.file_metrics@.take(i as int)),
            decreases self.file_metrics.len() - i,
        {
            proof {
                lemma_totals_bounded(self.file_metrics@.take(i as int));
                assert(i * 0xffff_ffff <= 0xffff_ffff_ffff_ffff * 0xffff_ffff) by (nonlinear_arith)
                    requires
                        i <= 0xffff_ffff_ffff_ffff,
                ;
                assert(self.file_metrics@.take(i + 1).drop_last() == self.file_metrics@.take(
                    i as int,
                ));
            }
            sum = sum + self.file_metrics[i].complexity as u128;
            i += 1;
        }
        assert(self.file_metrics@.take(i as int) == self.file_metrics@);
        sum
    }
}

/// Tells how complex a file is.
pub trait MetricReader {
    /// The cyclomatic complexity of the file at `path`, or nothing where the
    /// file cannot be read or analysed.
    fn get_cyclomatic_from_path_and_content(&self, path: &str) -> Option<u32>;
}

/// A reader that answers from the results of a code analysis: the
/// cyclomatic complexity of each file that was analysed, by path.
pub struct CodeAnalysisReader {
    analysed: StringHashMap<u32>,
}

impl View for CodeAnalysisReader {
    type V = Map<Seq<char>, u32>;

    closed spec fn view(&self) -> Map<Seq<char>, u32> {
        self.analysed@
    }
}

impl Default for CodeAnalysisReader {
    fn default() -> (reader: CodeAnalysisReader)
        ensures
            reader@ == Map::<Seq<char>, u32>::empty(),
    {
        CodeAnalysisReader::new()
    }
}

impl CodeAnalysisReader {
    /// A reader that knows of no file.
    pub fn new() -> (reader: CodeAnalysisReader)
        ensures
            reader@ == Map::<Seq<char>, u32>::empty(),
    {
        CodeAnalysisReader { analysed: StringHashMap::new() }
    }

    /// Takes note of the cyclomatic complexity that the analysis found for
    /// the file at `path`. A later note for the same path replaces this one.
    pub fn record(&mut self, path: String, cyclomatic: u32)
        ensures
            final(self)@ == old(self)@.insert(path@, cyclomatic),
    {
        self.analysed.insert(path, cyclomatic);
    }

    /// The complexity noted for `path`.
    pub fn lookup(&self, path: &str) -> (complexity: Option<u32>)
        ensures
            complexity == (if self@.contains_key(path@) {
                Some(self@[path@])
            } else {
                None
            }),
    {
        match self.analysed.get(path) {
            Some(complexity) => Some(*complexity),
            None => None,
        }
    }
}

impl MetricReader for CodeAnalysisReader {
    fn get_cyclomatic_from_path_and_content(&self, path: &str) -> (complexity: Option<u32>)
        ensures
            complexity == (if self@.contains_key(path@) {
                Some(self@[path@])
            } else {
                None
            }),
    {
        self.lookup(path)
    }
}

/// What `scores` holds for the entry at place `i`: nothing where it has no
/// such place.
pub open spec fn score_at(scores: Seq<Option<u32>>, i: int) -> Option<u32> {
    if 0 <= i < scores.len() {
        scores[i]
    } else {
        None
    }
}

/// What is known of the file of `entry` once `complexity` was found for it.
pub open spec fn facts_from(entry: ChurnEntry, complexity: u32) -> FileFacts {
    FileFacts { filename: entry.0, churn: entry.1@, complexity: complexity as nat }
}

/// The files of `entries` for which `scores` holds a complexity, each with
/// its churn and that complexity, in the order of `entries`. `scores[i]` is
/// what was found for `entries[i]`.
pub open spec fn joined(entries: Seq<ChurnEntry>, scores: Seq<Option<u32>>) -> Seq<FileFacts>
    decreases entries.len(),
{
    if entries.len() == 0 {
        Seq::empty()
    } else {
        let rest = joined(entries.drop_last(), scores);
        match score_at(scores, entries.len() - 1) {
            Some(complexity) => rest.push(facts_from(entries.last(), complexity)),
            None => rest,
        }
    }
}

/// A file stands in the join exactly if a complexity was found for it, and
/// then with its churn and that complexity; the join is no longer than the
/// map.
pub proof fn lemma_joined_members(entries: Seq<ChurnEntry>, scores: Seq<Option<u32>>)
    ensures
        joined(entries, scores).len() <= entries.len(),
        forall|facts: FileFacts|
            joined(entries, scores).contains(facts) <==> exists|i: int|
                0 <= i < entries.len() && (#[trigger] score_at(scores, i)).is_some() && facts
                    == facts_from(entries[i], score_at(scores, i).unwrap()),
    decreases entries.len(),
{
    let all = joined(entries, scores);
    if entries.len() == 0 {
        assert forall|facts: FileFacts| all.contains(facts) implies false by {}
    } else {
        let rest = joined(entries.drop_last(), scores);
        lemma_joined_members(entries.drop_last(), scores);
        let last = entries.len() - 1;
        assert forall|facts: FileFacts| all.contains(facts) <==> exists|i: int|
            0 <= i < entries.len() && (#[trigger] score_at(scores, i)).is_some() && facts
                == facts_from(entries[i], score_at(scores, i).unwrap()) by {
            if all.contains(facts) {
                let k = choose|k: int| 0 <= k < all.len() && all[k] == facts;
                if k < rest.len() {
                    assert(rest.contains(facts));
                    let i = choose|i: int|
                        0 <= i < last && (#[trigger] score_at(scores, i)).is_some() && facts
                            == facts_from(entries.drop_last()[i], score_at(scores, i).unwrap());
                    assert(score_at(scores, i).is_some());
                } else {
                    assert(score_at(scores, last).is_some());
                }
            }
            if exists|i: int|
                0 <= i < entries.len() && (#[trigger] score_at(scores, i)).is_some() && facts
                    == facts_from(entries[i], score_at(scores, i).unwrap()) {
                let i = choose|i: int|
                    0 <= i < entries.len() && (#[trigger] score_at(scores, i)).is_some() && facts
                        == facts_from(entries[i], score_at(scores, i).unwrap());
                if i < last {
                    assert(facts == facts_from(entries.drop_last()[i], score_at(scores, i).unwrap()));
                    assert(rest.contains(facts));
                    let k = choose|k: int| 0 <= k < rest.len() && rest[k] == facts;
                    assert(all[k] == facts);
                } else {
                    assert(all[all.len() - 1] == facts);
                }
            }
        }
    }
}

/// The join names no file twice, as the map names none twice.
pub proof fn lemma_joined_distinct(entries: Seq<ChurnEntry>, scores: Seq<Option<u32>>)
    requires
        has_distinct_paths(entries),
    ensures
        has_distinct_filenames(joined(entries, scores)),
    decreases entries.len(),
{
    if entries.len() > 0 {
        let all = joined(entries, scores);
        let rest = joined(entries.drop_last(), scores);
        lemma_joined_distinct(entries.drop_last(), scores);
        assert forall|i: int, j: int|
            0 <= i < all.len() && 0 <= j < all.len() && (#[trigger] all[i]).filename == (
            #[trigger] all[j]).filename implies i == j by {
            if i < rest.len() && j < rest.len() {
                assert(rest[i].filename == rest[j].filename);
            } else if i < rest.len() {
                lemma_not_last(entries, scores, rest[i]);
            } else if j < rest.len() {
                lemma_not_last(entries, scores, rest[j]);
            }
        }
    }
}

proof fn lemma_not_last(entries: Seq<ChurnEntry>, scores: Seq<Option<u32>>, facts: FileFacts)
    requires
        entries.len() > 0,
        has_distinct_paths(entries),
        joined(entries.drop_last(), scores).contains(facts),
    ensures
        facts.filename != entries.last().0,
{
    lemma_joined_members(entries.drop_last(), scores);
    let i = choose|i: int|
        0 <= i < entries.len() - 1 && (#[trigger] score_at(scores, i)).is_some() && facts
            == facts_from(entries.drop_last()[i], score_at(scores, i).unwrap());
    assert(entries[i].0 == facts.filename);
    if facts.filename == entries.last().0 {
        assert(entries[i].0 == entries[entries.len() - 1].0);
    }
}

/// Where a complexity was found for every file, the join holds every file
/// of the map, each in its place.
pub proof fn lemma_joined_all_found(entries: Seq<ChurnEntry>, scores: Seq<Option<u32>>)
    requires
        forall|i: int| 0 <= i < entries.len() ==> (#[trigger] score_at(scores, i)).is_some(),
    ensures
        joined(entries, scores).len() == entries.len(),
        forall|i: int|
            0 <= i < entries.len() ==> #[trigger] joined(entries, scores)[i] == facts_from(
                entries[i],
                score_at(scores, i).unwrap(),
            ),
    decreases entries.len(),
{
    if entries.len() > 0 {
        lemma_joined_all_found(entries.drop_last(), scores);
        assert(score_at(scores, entries.len() - 1).is_some());
        let all = joined(entries, scores);
        assert forall|i: int| 0 <= i < entries.len() implies #[trigger] all[i] == facts_from(
            entries[i],
            score_at(scores, i).unwrap(),
        ) by {
            if i < entries.len() - 1 {
                assert(joined(entries.drop_last(), scores)[i] == facts_from(
                    entries.drop_last()[i],
                    score_at(scores, i).unwrap(),
                ));
            }
        }
    }
}

/// Joins the churn of each file with the complexity found for it: `scores[i]`
/// is what was found for the file at place `i` of the map. A file for which
/// nothing was found is left out.
pub fn join_metrics(file_map: &ChurnMap, scores: &Vec<Option<u32>>) -> (files: Vec<FileMetrics>)
    ensures
        has_distinct_paths(file_map@),
        facts_of(files@) == joined(file_map@, scores@),
        has_distinct_filenames(facts_of(files@)),
{
    let mut files: Vec<FileMetrics> = Vec::new();
    let n = file_map.len();
    proof {
        lemma_joined_distinct(file_map@, scores@);
    }
    let mut i: usize = 0;
    assert(file_map@.take(0) =~= Seq::empty());
    while i < n
        invariant
            n == file_map@.len(),
            i <= n,
            facts_of(files@) == joined(file_map@.take(i as int), scores@),
        decreases n - i,
    {
        proof {
            assert(file_map@.take(i + 1).drop_last() =~= file_map@.take(i as int));
        }
        let ghost before = files@;
        if i < scores.len() {
            match scores[i] {
                Some(complexity) => {
                    let file = FileMetrics::new(
                        file_map.path(i).clone(),
                        file_map.churn(i),
                        complexity,
                    );
                    files.push(file);
                    assert(facts_of(files@) =~= facts_of(before).push(file@));
                },
                None => {},
            }
        }
        i += 1;
    }
    assert(file_map@.take(n as int) =~= file_map@);
    files
}

/// `score` is what `reader` answered when it was asked for the complexity of
/// the file at `path`.
pub open spec fn answered<R: MetricReader>(reader: &R, path: Seq<char>, score: Option<u32>) -> bool {
    exists|asked: &str|
        asked@ == path && #[trigger] call_ensures(
            R::get_cyclomatic_from_path_and_content,
            (reader, asked),
            score,
        )
}

/// `scores` are the answers of `reader` for the paths of `entries`, one for
/// each and in their order.
pub open spec fn answers<R: MetricReader>(
    reader: &R,
    entries: Seq<ChurnEntry>,
    scores: Seq<Option<u32>>,
) -> bool {
    &&& scores.len() == entries.len()
    &&& forall|i: int|
        0 <= i < entries.len() ==> answered(reader, (#[trigger] entries[i]).0, scores[i])
}

/// Asks `reader` for the complexity of each file of `file_map` and joins
/// the answers with the churn: the result is the join of the map with what
/// the reader answered for each of its paths.
pub fn metrics_per_file<R: MetricReader>(file_map: ChurnMap, reader: R) -> (files: Vec<FileMetrics>)
    ensures
        has_distinct_paths(file_map@),
        exists|scores: Seq<Option<u32>>|
            answers(&reader, file_map@, scores) && facts_of(files@) == #[trigger] joined(
                file_map@,
                scores,
            ),
        has_distinct_filenames(facts_of(files@)),
{
    let mut scores: Vec<Option<u32>> = Vec::new();
    let n = file_map.len();
    let mut i: usize = 0;
    while i < n
        invariant
            n == file_map@.len(),
            i <= n,
            scores@.len() == i,
            forall|k: int|
                0 <= k < i ==> answered(&reader, (#[trigger] file_map@[k]).0, scores@[k]),
        decreases n - i,
    {
        let path = file_map.path(i).as_str();
        let score = reader.get_cyclomatic_from_path_and_content(path);
        assert(answered(&reader, file_map@[i as int].0, score)) by {
            assert(path@ == file_map@[i as int].0);
            assert(call_ensures(R::get_cyclomatic_from_path_and_content, (&reader, path), score));
        }
        scores.push(score);
        i += 1;
    }
    assert(answers(&reader, file_map@, scores@));
    join_metrics(&file_map, &scores)
}

} // verus!
