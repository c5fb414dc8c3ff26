//! The dashboard: a cursor over the ranked files, and what each frame shows.

use crate::metrics::{summarises, FileMetrics, ProjectMetrics};
use crate::output::app::chart::{
    create_chart, Chart, Color, Dataset, GraphType, Marker, RiskBoundary, SeriesData,
};
use crate::output::app::table::{file_table, is_table_of, FileTable};
use vstd::prelude::*;

pub mod chart;
pub mod table;

verus! {

/// The share of the width, in hundredths, that the table of files takes.
pub const TABLE_SHARE: u16 = 30;

/// The share of the width, in hundredths, that the chart takes.
pub const CHART_SHARE: u16 = 70;

/// The cursor after a step forward over `len` files: the first file where
/// none was selected, else the next one, and the first again after the last.
/// Over no files the cursor stays as it is.
pub open spec fn advanced(cursor: Option<usize>, len: nat) -> Option<usize> {
    if len == 0 {
        cursor
    } else {
        match cursor {
            Some(i) => Some(((i + 1) % len as int) as usize),
            None => Some(0),
        }
    }
}

/// The cursor after a step back over `len` files: the first file where none
/// was selected, else the one before, and the last one before the first.
/// Over no files the cursor stays as it is.
pub open spec fn retreated(cursor: Option<usize>, len: nat) -> Option<usize> {
    if len == 0 {
        cursor
    } else {
        match cursor {
            Some(i) => Some(((i + len - 1) % len as int) as usize),
            None => Some(0),
        }
    }
}

/// A key that was pressed.
#[derive(Debug, Clone, Copy, PartialEq, Eq, Structural)]
pub enum KeyPress {
    Char(char),
    Down,
    Up,
    Other,
}

/// What the session does after a key.
#[derive(Debug, Clone, Copy, PartialEq, Eq, Structural)]
pub enum Command {
    /// Draw the next frame and wait for the next key.
    Redraw,
    /// End the session.
    Quit,
}

/// The state of the dashboard: the ranked files, which never change, and a
/// cursor that selects one of them or none.
pub struct App {
    state: Option<usize>,
    metrics: ProjectMetrics,
}

impl App {
    #[verifier::type_invariant]
    spec fn cursor_in_range(&self) -> bool {
        self.state matches Some(i) ==> i < self.metrics@.len()
    }

    /// The place of the selected file, if one is selected.
    pub closed spec fn cursor(&self) -> Option<usize> {
        self.state
    }

    /// The files, in their rank.
    pub closed spec fn files(&self) -> Seq<FileMetrics> {
        self.metrics@
    }

    /// A dashboard over `metrics` in which no file is selected.
    pub fn new(metrics: ProjectMetrics) -> (app: App)
        ensures
            app.cursor().is_none(),
            app.files() == metrics@,
    {
        App { state: None, metrics }
    }

    /// The place of the selected file. It is a place of the ranking.
    pub fn selected(&self) -> (cursor: Option<usize>)
        ensures
            cursor == self.cursor(),
            cursor matches Some(i) ==> i < self.files().len(),
    {
        proof {
            use_type_invariant(self);
        }
        self.state
    }

    /// The ranked files.
    pub fn metrics(&self) -> (metrics: &ProjectMetrics)
        ensures
            metrics@ == self.files(),
    {
        &self.metrics
    }

    /// Moves the cursor one file forward.
    pub fn next(&mut self)
        ensures
            final(self).files() == old(self).files(),
            final(self).cursor() == advanced(old(self).cursor(), old(self).files().len()),
    {
        proof {
            use_type_invariant(&*self);
        }
        let len = self.metrics.file_metrics().len();
        if len == 0 {
            return ;
        }
        let i = match self.state {
            Some(i) => {
                if i >= len - 1 {
                    assert((i + 1) % len as int == 0) by (nonlinear_arith)
                        requires
                            i + 1 == len,
                            len > 0,
                    ;
                    0
                } else {
                    assert((i + 1) % len as int == i + 1) by (nonlinear_arith)
                        requires
                            0 <= i + 1 < len,
                    ;
                    i + 1
                }
            },
            None => 0,
        };
        self.state = Some(i);
    }

    /// Moves the cursor one file back.
    pub fn previous(&mut self)
        ensures
            final(self).files() == old(self).files(),
            final(self).cursor() == retreated(old(self).cursor(), old(self).files().len()),
    {
        proof {
            use_type_invariant(&*self);
        }
        let len = self.metrics.file_metrics().len();
        if len == 0 {
            return ;
        }
        let i = match self.state {
            Some(i) => {
                if i == 0 {
                    assert((0 + len - 1) % len as int == len - 1) by (nonlinear_arith)
                        requires
                            len > 0,
                    ;
                    len - 1
                } else {
                    assert((i + len - 1) % len as int == i - 1) by (nonlinear_arith)
                        requires
                            0 < i < len,
                    ;
                    i - 1
                }
            },
            None => 0,
        };
        self.state = Some(i);
    }

    /// Takes one key: `q` ends the session, the down key moves the cursor
    /// forward, the up key moves it back, and any other key changes nothing.
    pub fn on_key(&mut self, key: KeyPress) -> (command: Command)
        ensures
            final(self).files() == old(self).files(),
            command == (if key == KeyPress::Char('q') {
                Command::Quit
            } else {
                Command::Redraw
            }),
            final(self).cursor() == (match key {
                KeyPress::Down => advanced(old(self).cursor(), old(self).files().len()),
                KeyPress::Up => retreated(old(self).cursor(), old(self).files().len()),
                _ => old(self).cursor(),
            }),
    {
        match key {
            KeyPress::Char(c) => {
                if c == 'q' {
                    Command::Quit
                } else {
                    Command::Redraw
                }
            },
            KeyPress::Down => {
                self.next();
                Command::Redraw
            },
            KeyPress::Up => {
                self.previous();
                Command::Redraw
            },
            KeyPress::Other => Command::Redraw,
        }
    }
}

/// Moving the cursor keeps it on a file.
pub proof fn lemma_cursor_stays_in_range(cursor: Option<usize>, len: nat)
    requires
        cursor matches Some(i) ==> i < len,
        len <= usize::MAX,
    ensures
        advanced(cursor, len) matches Some(i) ==> i < len,
        retreated(cursor, len) matches Some(i) ==> i < len,
        len > 0 ==> advanced(cursor, len).is_some() && retreated(cursor, len).is_some(),
{
    if len > 0 {
        if let Some(i) = cursor {
            assert(0 <= (i + 1) % (len as int) < len) by (nonlinear_arith)
                requires
                    len > 0,
                    i >= 0,
            ;
            assert(0 <= (i + len - 1) % (len as int) < len) by (nonlinear_arith)
                requires
                    len > 0,
                    i >= 0,
            ;
        }
    }
}

/// A step back undoes a step forward, and a step forward a step back.
pub proof fn lemma_steps_undo_each_other(i: usize, len: nat)
    requires
        i < len <= usize::MAX,
    ensures
        retreated(advanced(Some(i), len), len) == Some(i),
        advanced(retreated(Some(i), len), len) == Some(i),
{
    let n = len as int;
    if i + 1 < len {
        assert((i + 1) % n == i + 1) by (nonlinear_arith)
            requires
                0 <= i + 1 < n,
        ;
        assert((i + 1 + n - 1) % n == i) by (nonlinear_arith)
            requires
                0 <= i < n,
        ;
    } else {
        assert((i + 1) % n == 0) by (nonlinear_arith)
            requires
                i + 1 == n,
                n > 0,
        ;
        assert((0 + n - 1) % n == n - 1) by (nonlinear_arith)
            requires
                n > 0,
        ;
    }
    if i > 0 {
        assert((i + n - 1) % n == i - 1) by (nonlinear_arith)
            requires
                0 < i < n,
        ;
        assert((i - 1 + 1) % n == i) by (nonlinear_arith)
            requires
                0 <= i < n,
        ;
    } else {
        assert((0 + n - 1) % n == n - 1) by (nonlinear_arith)
            requires
                n > 0,
        ;
        assert((n - 1 + 1) % n == 0) by (nonlinear_arith)
            requires
                n > 0,
        ;
    }
}

/// The file as a point of the chart.
pub open spec fn point_of(file: FileMetrics) -> (u32, u32) {
    (file.churn.0, file.complexity)
}

/// The points of all the files, in their rank.
pub open spec fn points_of(files: Seq<FileMetrics>) -> Seq<(u32, u32)> {
    files.map_values(|file: FileMetrics| point_of(file))
}

/// The point of the selected file alone, or no point where none is selected.
pub open spec fn selected_points(files: Seq<FileMetrics>, cursor: Option<usize>) -> Seq<(u32, u32)> {
    match cursor {
        Some(i) => if i < files.len() {
            seq![point_of(files[i as int])]
        } else {
            Seq::empty()
        },
        None => Seq::empty(),
    }
}

/// The points of `metric_data` that are not among `selected_metric`, in
/// their order.
pub open spec fn without_selected(metric_data: Seq<(u32, u32)>, selected_metric: Seq<(u32, u32)>) -> Seq<
    (u32, u32),
> {
    metric_data.filter(|point: (u32, u32)| !selected_metric.contains(point))
}

/// What is left holds no selected point, and every other point that there
/// was.
pub proof fn lemma_selected_is_left_out(
    metric_data: Seq<(u32, u32)>,
    selected_metric: Seq<(u32, u32)>,
    point: (u32, u32),
)
    ensures
        without_selected(metric_data, selected_metric).contains(point) <==> metric_data.contains(
            point,
        ) && !selected_metric.contains(point),
{
    let keep = |point: (u32, u32)| !selected_metric.contains(point);
    let rest = metric_data.filter(keep);
    if rest.contains(point) {
        let k = choose|k: int| 0 <= k < rest.len() && rest[k] == point;
        metric_data.lemma_filter_pred(keep, k);
        metric_data.lemma_filter_contains_rev(keep, point);
    }
    if metric_data.contains(point) && !selected_metric.contains(point) {
        let k = choose|k: int| 0 <= k < metric_data.len() && metric_data[k] == point;
        metric_data.lemma_filter_contains(keep, k);
    }
}

fn is_among(points: &[(u32, u32)], point: (u32, u32)) -> (found: bool)
    ensures
        found == points@.contains(point),
{
    let mut i: usize = 0;
    while i < points.len()
        invariant
            i <= points@.len(),
            forall|k: int| 0 <= k < i ==> points@[k] != point,
        decreases points@.len() - i,
    {
        if points[i].0 == point.0 && points[i].1 == point.1 {
            return true;
        }
        i += 1;
    }
    false
}

/// Leaves out of `metric_data` every point that is selected, so that no
/// point is drawn twice.
pub fn filter_out_selected_metric(metric_data: &[(u32, u32)], selected_metric: &[(u32, u32)]) -> (rest:
    Vec<(u32, u32)>)
    ensures
        rest@ == without_selected(metric_data@, selected_metric@),
{
    let ghost keep = |point: (u32, u32)| !selected_metric@.contains(point);
    let mut rest: Vec<(u32, u32)> = Vec::new();
    let mut i: usize = 0;
    proof {
        reveal(Seq::filter);
        assert(metric_data@.take(0) =~= Seq::empty());
    }
    while i < metric_data.len()
        invariant
            i <= metric_data@.len(),
            keep == |point: (u32, u32)| !selected_metric@.contains(point),
            rest@ == metric_data@.take(i as int).filter(keep),
        decreases metric_data@.len() - i,
    {
        proof {
            assert(metric_data@.take(i + 1) =~= metric_data@.take(i as int).push(
                metric_data@[i as int],
            ));
            metric_data@.take(i as int).lemma_filter_push(metric_data@[i as int], keep);
        }
        if !is_among(selected_metric, metric_data[i]) {
            rest.push(metric_data[i]);
        }
        i += 1;
    }
    assert(metric_data@.take(i as int) =~= metric_data@);
    rest
}

/// `dataset` is drawn in this way.
pub open spec fn is_drawn(
    dataset: Dataset,
    marker: Marker,
    graph_type: GraphType,
    color: Color,
    bold: bool,
) -> bool {
    &&& dataset.marker == marker
    &&& dataset.graph_type == graph_type
    &&& dataset.color == color
    &&& dataset.bold == bold
}

/// `datasets` are the three series of the chart: the risk boundary `boundary`
/// as a dark grey line; the files at `metric_data` as bold green dots; and
/// the selected file at `selected_point` as a magenta block.
pub open spec fn is_datasets(
    datasets: Seq<Dataset>,
    boundary: RiskBoundary,
    metric_data: Seq<(u32, u32)>,
    selected_point: Seq<(u32, u32)>,
) -> bool {
    &&& datasets.len() == 3
    &&& is_drawn(datasets[0], Marker::Dot, GraphType::Line, Color::DarkGray, false)
    &&& datasets[0].data matches SeriesData::Boundary(drawn) && drawn == boundary
    &&& is_drawn(datasets[1], Marker::Dot, GraphType::Scatter, Color::Green, true)
    &&& datasets[1].data matches SeriesData::Files(points) && points@ == metric_data
    &&& is_drawn(datasets[2], Marker::Block, GraphType::Scatter, Color::Magenta, false)
    &&& datasets[2].data matches SeriesData::Files(points) && points@ == selected_point
}

/// The three series of the chart, in the order in which they are drawn.
pub fn create_datasets(
    threshold_points: RiskBoundary,
    metric_data: Vec<(u32, u32)>,
    selected_point: Vec<(u32, u32)>,
) -> (datasets: Vec<Dataset>)
    ensures
        is_datasets(datasets@, threshold_points, metric_data@, selected_point@),
{
    let threshold_points = Dataset {
        marker: Marker::Dot,
        graph_type: GraphType::Line,
        color: Color::DarkGray,
        bold: false,
        data: SeriesData::Boundary(threshold_points),
    };
    let metric_data = Dataset {
        marker: Marker::Dot,
        graph_type: GraphType::Scatter,
        color: Color::Green,
        bold: true,
        data: SeriesData::Files(metric_data),
    };
    let selected_point = Dataset {
        marker: Marker::Block,
        graph_type: GraphType::Scatter,
        color: Color::Magenta,
        bold: false,
        data: SeriesData::Files(selected_point),
    };
    let mut datasets: Vec<Dataset> = Vec::new();
    datasets.push(threshold_points);
    datasets.push(metric_data);
    datasets.push(selected_point);
    datasets
}

/// What one frame of the dashboard shows: on the left the table of files
/// with the selected row marked, on the right the chart.
pub struct Frame {
    pub table: FileTable,
    pub selected: Option<usize>,
    pub chart: Chart,
}

/// `frame` shows the files `files` with the cursor at `cursor`: every file
/// as a row of the table; and in the chart the risk boundary of the files,
/// the files that are not selected, and the selected file by itself, between
/// axes that end at the largest churn and the largest complexity, each with
/// its margin.
pub open spec fn is_frame_of(frame: Frame, files: Seq<FileMetrics>, cursor: Option<usize>) -> bool {
    &&& frame.selected == cursor
    &&& is_table_of(frame.table, files)
    &&& frame.chart.title@ == "Churn vs Complexity"@
    &&& frame.chart.title_color == Color::Cyan
    &&& exists|boundary: RiskBoundary|
        summarises(boundary.facts(), files) && #[trigger] is_datasets(
            frame.chart.datasets@,
            boundary,
            without_selected(points_of(files), selected_points(files, cursor)),
            selected_points(files, cursor),
        ) && chart::is_axis(frame.chart.x_axis, "Churn"@, boundary.facts().max_churn as u64)
            && chart::is_axis(
            frame.chart.y_axis,
            "Complexity"@,
            boundary.facts().max_complexity as u64,
        )
}

/// The frame that shows the dashboard as it stands.
pub fn ui(app: &App) -> (frame: Frame)
    ensures
        is_frame_of(frame, app.files(), app.cursor()),
{
    let files = app.metrics().file_metrics();
    let table = file_table(files.as_slice());
    let selected = app.selected();
    let aggregate = app.metrics().aggregate();
    let maximum_churn = aggregate.max_churn();
    let maximum_complexity = aggregate.max_complexity();
    let threshold_points = RiskBoundary::new(aggregate);

    let mut selected_point: Vec<(u32, u32)> = Vec::new();
    if let Some(i) = selected {
        selected_point.push(files[i].to_point());
    }
    assert(selected_point@ =~= selected_points(app.files(), app.cursor()));
    let mut points: Vec<(u32, u32)> = Vec::new();
    let mut i: usize = 0;
    while i < files.len()
        invariant
            i <= files@.len(),
            points@ == points_of(files@.take(i as int)),
        decreases files@.len() - i,
    {
        points.push(files[i].to_point());
        assert(points@ =~= points_of(files@.take(i + 1)));
        i += 1;
    }
    assert(files@.take(i as int) =~= files@);
    let metric_data = filter_out_selected_metric(points.as_slice(), selected_point.as_slice());
    let datasets = create_datasets(threshold_points, metric_data, selected_point);
    let chart = create_chart(datasets, maximum_churn, maximum_complexity);
    Frame { table, selected, chart }
}

} // verus!
