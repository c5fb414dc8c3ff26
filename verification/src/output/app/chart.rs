use crate::metrics::{AggregateFacts, ProjectAggregate};
use crate::text::{decimal, decimal_string};
use vstd::arithmetic::div_mod::lemma_fundamental_div_mod;
use vstd::prelude::*;
use vstd::string::StringExecFns;

verus! {

/// The risk boundary at `churn` is `(100 / churn - churn threshold) +
/// complexity threshold`, where the churn threshold is
/// `churn_sum / file_count / 2` and the complexity threshold is
/// `complexity_sum / file_count / 2`. Over the common denominator
/// `2 * file_count * churn` that is the fraction of `boundary_numerator` over
/// `boundary_denominator`.
pub open spec fn boundary_numerator(churn: int, facts: AggregateFacts) -> int {
    200 * facts.file_count + churn * (facts.complexity_sum - facts.churn_sum)
}

/// See `boundary_numerator`. It is 0 where the boundary has no value: at
/// churn 0, and for a project without files.
pub open spec fn boundary_denominator(churn: int, facts: AggregateFacts) -> int {
    2 * facts.file_count * churn
}

/// One point of the risk boundary. Its complexity is held exactly, as the
/// mixed number `whole + numerator / denominator`; where `denominator` is 0
/// the boundary has no value at this churn.
#[derive(Debug, Clone, Copy, PartialEq, Eq, Structural)]
pub struct BoundaryPoint {
    pub churn: u64,
    pub whole: i64,
    pub numerator: u128,
    pub denominator: u128,
}

/// `point` is the risk boundary of a project with the summary `facts` at
/// `churn`.
pub open spec fn is_boundary_point(point: BoundaryPoint, churn: int, facts: AggregateFacts) -> bool {
    &&& point.churn == churn
    &&& point.denominator == boundary_denominator(churn, facts)
    &&& point.denominator == 0 ==> point.whole == 0 && point.numerator == 0
    &&& point.denominator > 0 ==> {
        &&& point.whole * point.denominator + point.numerator == boundary_numerator(churn, facts)
        &&& 200 * facts.file_count <= point.numerator < 200 * facts.file_count
            + point.denominator
    }
}

/// Only one point is the risk boundary at a churn.
pub proof fn lemma_boundary_point_unique(
    p: BoundaryPoint,
    q: BoundaryPoint,
    churn: int,
    facts: AggregateFacts,
)
    requires
        is_boundary_point(p, churn, facts),
        is_boundary_point(q, churn, facts),
    ensures
        p == q,
{
    if p.denominator > 0 {
        let d = p.denominator as int;
        let base = 200 * facts.file_count;
        assert(p.whole == q.whole) by (nonlinear_arith)
            requires
                d > 0,
                p.whole * d + p.numerator == q.whole * d + q.numerator,
                base <= p.numerator < base + d,
                base <= q.numerator < base + d,
        ;
        assert(p.numerator == q.numerator) by (nonlinear_arith)
            requires
                p.whole == q.whole,
                p.whole * d + p.numerator == q.whole * d + q.numerator,
        ;
    }
}

/// The boundary falls as churn grows: of two churns above 0, the larger has
/// the smaller fraction.
pub proof fn lemma_boundary_falls(low: int, high: int, facts: AggregateFacts)
    requires
        0 < low < high,
        facts.file_count > 0,
    ensures
        boundary_denominator(low, facts) > 0,
        boundary_denominator(high, facts) > 0,
        boundary_numerator(low, facts) * boundary_denominator(high, facts) > boundary_numerator(
            high,
            facts,
        ) * boundary_denominator(low, facts),
{
    let n = facts.file_count as int;
    let delta = facts.complexity_sum - facts.churn_sum;
    assert(2 * n * low > 0 && 2 * n * high > 0) by (nonlinear_arith)
        requires
            n > 0,
            0 < low < high,
    ;
    assert((200 * n + low * delta) * (2 * n * high) - (200 * n + high * delta) * (2 * n * low)
        == 400 * n * n * (high - low)) by (nonlinear_arith);
    assert(400 * n * n * (high - low) > 0) by (nonlinear_arith)
        requires
            n > 0,
            high - low > 0,
    ;
}

/// The last churn at which the boundary of a project is drawn.
pub open spec fn last_sampled_churn(facts: AggregateFacts) -> nat {
    facts.max_churn + 9
}

/// The risk boundary at `churn`, for a project with the summary
/// `aggregate`. `churn` lies within the part of the chart where the boundary
/// is drawn.
pub fn complexity_churn_threshold(churn: u64, aggregate: &ProjectAggregate) -> (point:
    BoundaryPoint)
    requires
        churn <= last_sampled_churn(aggregate@),
    ensures
        is_boundary_point(point, churn as int, aggregate@),
{
    let n = aggregate.file_count() as u128;
    let complexity_sum = aggregate.complexity_sum();
    let churn_sum = aggregate.churn_sum();
    if n == 0 || churn == 0 {
        assert(boundary_denominator(churn as int, aggregate@) == 0) by (nonlinear_arith)
            requires
                aggregate@.file_count == 0 || churn == 0,
        ;
        return BoundaryPoint { churn, whole: 0, numerator: 0, denominator: 0 };
    }
    let x = churn as u128;
    let twice = 2 * n;
    let ghost delta = complexity_sum as int - churn_sum as int;
    proof {
        assert(n * 0xffff_ffff <= 0xffff_ffff_ffff_ffff * 0xffff_ffff) by (nonlinear_arith)
            requires
                n <= 0xffff_ffff_ffff_ffff,
        ;
    }
    let whole: i64;
    let rest: u128;
    if complexity_sum >= churn_sum {
        let above = complexity_sum - churn_sum;
        let quotient = above / twice;
        rest = above % twice;
        proof {
            lemma_fundamental_div_mod(above as int, twice as int);
            assert(quotient <= 0x8000_0000) by (nonlinear_arith)
                requires
                    above == twice * quotient + rest,
                    above <= n * 0xffff_ffff,
                    twice == 2 * n,
                    n > 0,
            ;
        }
        whole = quotient as i64;
        assert(whole * twice + rest == delta) by (nonlinear_arith)
            requires
                above == twice * quotient + rest,
                whole == quotient,
                above == delta,
        ;
    } else {
        let below = churn_sum - complexity_sum;
        let quotient = below / twice;
        let remainder = below % twice;
        proof {
            lemma_fundamental_div_mod(below as int, twice as int);
            assert(quotient <= 0x8000_0000) by (nonlinear_arith)
                requires
                    below == twice * quotient + remainder,
                    below <= n * 0xffff_ffff,
                    twice == 2 * n,
                    n > 0,
            ;
        }
        if remainder == 0 {
            whole = -(quotient as i64);
            rest = 0;
        } else {
            whole = -(quotient as i64) - 1;
            rest = twice - remainder;
        }
        assert(whole * twice + rest == delta) by (nonlinear_arith)
            requires
                below == twice * quotient + remainder,
                below == -delta,
                remainder == 0 ==> whole == -quotient && rest == 0,
                remainder != 0 ==> whole == -quotient - 1 && rest == twice - remainder,
        ;
    }
    assert(x * rest <= 0x1_0000_0012 * 0x1_ffff_ffff_ffff_fffe) by (nonlinear_arith)
        requires
            x <= 0x1_0000_0012,
            rest <= 0x1_ffff_ffff_ffff_fffe,
    ;
    assert(twice * x <= 0x1_ffff_ffff_ffff_fffe * 0x1_0000_0012) by (nonlinear_arith)
        requires
            x <= 0x1_0000_0012,
            twice <= 0x1_ffff_ffff_ffff_fffe,
    ;
    let numerator = 200 * n + x * rest;
    let denominator = twice * x;
    proof {
        assert(denominator == 2 * n * x) by (nonlinear_arith)
            requires
                denominator == twice * x,
                twice == 2 * n,
        ;
        assert(denominator > 0) by (nonlinear_arith)
            requires
                denominator == 2 * n * x,
                n > 0,
                x > 0,
        ;
        assert(whole * denominator + numerator == 200 * n + x * delta) by (nonlinear_arith)
            requires
                whole * twice + rest == delta,
                denominator == twice * x,
                numerator == 200 * n + x * rest,
        ;
        assert(x * rest < denominator) by (nonlinear_arith)
            requires
                rest < twice,
                denominator == twice * x,
                x > 0,
        ;
    }
    BoundaryPoint { churn, whole, numerator, denominator }
}

/// The risk boundary of a project: one point for each churn from 1 to the
/// last that is drawn. The points are worked out when they are asked for.
#[derive(Debug, Clone, Copy)]
pub struct RiskBoundary {
    aggregate: ProjectAggregate,
}

impl RiskBoundary {
    /// The summary from which the boundary is derived.
    pub closed spec fn facts(&self) -> AggregateFacts {
        self.aggregate@
    }

    /// The boundary of a project with the summary `aggregate`.
    pub fn new(aggregate: ProjectAggregate) -> (boundary: RiskBoundary)
        ensures
            boundary.facts() == aggregate@,
    {
        RiskBoundary { aggregate }
    }

    /// The number of points: the largest churn of the chart and 9 more.
    pub fn len(&self) -> (n: u64)
        ensures
            n == last_sampled_churn(self.facts()),
            n == self.facts().max_churn + 9,
            n >= 19,
    {
        self.aggregate.max_churn() + 9
    }

    /// The point at place `i`. Its churn is `i + 1`: no point has churn 0.
    pub fn point(&self, i: u64) -> (point: BoundaryPoint)
        requires
            i < last_sampled_churn(self.facts()),
        ensures
            is_boundary_point(point, i + 1, self.facts()),
            point.churn == i + 1,
            point.churn >= 1,
    {
        let len = self.len();
        assert(i < len);
        complexity_churn_threshold(i + 1, &self.aggregate)
    }
}

/// The sign that marks a point.
#[derive(Debug, Clone, Copy, PartialEq, Eq, Structural)]
pub enum Marker {
    Dot,
    Block,
}

/// Whether the points of a series stand alone or are joined by a line.
#[derive(Debug, Clone, Copy, PartialEq, Eq, Structural)]
pub enum GraphType {
    Scatter,
    Line,
}

/// The colours that the dashboard uses.
#[derive(Debug, Clone, Copy, PartialEq, Eq, Structural)]
pub enum Color {
    Red,
    Green,
    Magenta,
    Cyan,
    Gray,
    DarkGray,
}

/// The points of one series.
#[derive(Debug, Clone)]
pub enum SeriesData {
    /// The risk boundary.
    Boundary(RiskBoundary),
    /// Files, each as `(churn, complexity)`.
    Files(Vec<(u32, u32)>),
}

/// One series of the chart and how it is drawn.
#[derive(Debug, Clone)]
pub struct Dataset {
    pub marker: Marker,
    pub graph_type: GraphType,
    pub color: Color,
    pub bold: bool,
    pub data: SeriesData,
}

/// One axis of the chart: it runs from 0 to `bound` and is labelled at 0, at
/// the midpoint and at `bound`.
#[derive(Debug, Clone)]
pub struct Axis {
    pub title: String,
    pub color: Color,
    pub bound: u64,
    pub labels: Vec<String>,
}

/// `axis` is the axis with this title that ends at `bound`.
pub open spec fn is_axis(axis: Axis, title: Seq<char>, bound: u64) -> bool {
    &&& axis.title@ == title
    &&& axis.color == Color::Gray
    &&& axis.bound == bound
    &&& axis.labels@.len() == 3
    &&& axis.labels@[0]@ == decimal(0)
    &&& axis.labels@[1]@ == decimal((bound / 2) as nat)
    &&& axis.labels@[2]@ == decimal(bound as nat)
}

/// The scatter chart of the dashboard.
#[derive(Debug, Clone)]
pub struct Chart {
    pub title: String,
    pub title_color: Color,
    pub datasets: Vec<Dataset>,
    pub x_axis: Axis,
    pub y_axis: Axis,
}

fn create_axis(title: &str, bound: u64) -> (axis: Axis)
    ensures
        is_axis(axis, title@, bound),
{
    let mut labels: Vec<String> = Vec::new();
    labels.push(decimal_string(0));
    labels.push(decimal_string(bound / 2));
    labels.push(decimal_string(bound));
    Axis { title: String::from_str(title), color: Color::Gray, bound, labels }
}

/// The chart of `datasets`: churn across, from 0 to `maximum_churn`, and
/// complexity up, from 0 to `maximum_complexity`.
pub fn create_chart(datasets: Vec<Dataset>, maximum_churn: u64, maximum_complexity: u64) -> (chart:
    Chart)
    ensures
        chart.title@ == "Churn vs Complexity"@,
        chart.title_color == Color::Cyan,
        chart.datasets == datasets,
        is_axis(chart.x_axis, "Churn"@, maximum_churn),
        is_axis(chart.y_axis, "Complexity"@, maximum_complexity),
{
    Chart {
        title: String::from_str("Churn vs Complexity"),
        title_color: Color::Cyan,
        datasets,
        x_axis: create_axis("Churn", maximum_churn),
        y_axis: create_axis("Complexity", maximum_complexity),
    }
}

} // verus!
