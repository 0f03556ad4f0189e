//! The turtle: it walks a symbol sequence and traces polylines.
//!
//! The turtle here works in whole numbers. A heading is the number of left
//! turns made, less the right turns, so the angle it stands for is a right
//! angle plus that many turn angles. A vertex is known by the number of steps
//! that lead to it and by the heading of the last of them. Coordinates follow
//! from these by trigonometry, which is left to the caller.

use vstd::prelude::*;
use crate::system::{count_edges, count_of, BaseSymbols, SystemExpression};

verus! {

/// A vertex of a polyline, as the mathematics sees it.
pub struct Waypoint {
    /// How many steps lead from the origin to this vertex.
    pub step: nat,
    /// The heading of the step that arrives here; 0 for the origin.
    pub heading: int,
}

/// A vertex of a polyline.
#[derive(Clone, Copy, Debug, PartialEq, Eq, Structural)]
pub struct Vertex {
    /// How many steps lead from the origin to this vertex.
    pub step: usize,
    /// The heading of the step that arrives here; 0 for the origin.
    pub heading: i128,
}

impl View for Vertex {
    type V = Waypoint;

    open spec fn view(&self) -> Waypoint {
        Waypoint { step: self.step as nat, heading: self.heading as int }
    }
}

/// The polylines of a drawing, in the order in which they were begun.
pub type Lines = Vec<Vec<Vertex>>;

/// What a list of polylines holds.
pub open spec fn lines_view(lines: Seq<Vec<Vertex>>) -> Seq<Seq<Waypoint>> {
    Seq::new(lines.len(), |i: int| Seq::new(lines[i]@.len(), |j: int| lines[i]@[j]@))
}

/// The left turns of `symbols` less its right turns.
pub open spec fn net_turns(symbols: Seq<BaseSymbols>) -> int {
    count_of(symbols, BaseSymbols::AngleIncrement) - count_of(symbols, BaseSymbols::AngleDecrement)
}

/// The vertex that a step arrives at when the turtle has walked `before`.
pub open spec fn arrival(before: Seq<BaseSymbols>) -> Waypoint {
    Waypoint { step: count_edges(before) + 1, heading: net_turns(before) }
}

/// The polylines that a turtle traces on `symbols`, setting out from the
/// origin and facing up.
///
/// It begins with one polyline that holds the origin alone. A turn changes
/// nothing of the drawing. A drawn step extends the last polyline by the
/// vertex it arrives at. An undrawn step begins a new polyline at the vertex
/// it arrives at.
pub open spec fn trace(symbols: Seq<BaseSymbols>) -> Seq<Seq<Waypoint>>
    decreases symbols.len(),
{
    if symbols.len() == 0 {
        seq![seq![Waypoint { step: 0, heading: 0 }]]
    } else {
        let before = symbols.drop_last();
        let lines = trace(before);
        match symbols.last() {
            BaseSymbols::Forward => lines.drop_last().push(lines.last().push(arrival(before))),
            BaseSymbols::ForwardNoLine => lines.push(seq![arrival(before)]),
            _ => lines,
        }
    }
}

/// The vertices that the turtle passes on `symbols`, from the origin on: one
/// for the origin and one for each step, drawn or not.
pub open spec fn path(symbols: Seq<BaseSymbols>) -> Seq<Waypoint>
    decreases symbols.len(),
{
    if symbols.len() == 0 {
        seq![Waypoint { step: 0, heading: 0 }]
    } else {
        let before = symbols.drop_last();
        match symbols.last() {
            BaseSymbols::Forward | BaseSymbols::ForwardNoLine => path(before).push(arrival(before)),
            _ => path(before),
        }
    }
}

/// The number of vertices in all of `lines`.
pub open spec fn count_points(lines: Seq<Seq<Waypoint>>) -> nat {
    lines.flatten().len()
}

/// The turtle's state: its heading.
#[derive(Clone, Copy, Debug)]
pub struct Turtle {
    heading: i128,
}

impl Turtle {
    /// The heading: left turns made, less right turns, since the turtle last
    /// faced up.
    pub closed spec fn heading(&self) -> int {
        self.heading as int
    }

    /// A turtle that faces up.
    pub fn new() -> (turtle: Turtle)
        ensures
            turtle.heading() == 0,
    {
        Turtle { heading: 0 }
    }

    /// The heading, as a number.
    pub fn turns(&self) -> (heading: i128)
        ensures
            heading == self.heading(),
    {
        self.heading
    }

    /// Walks `expression` from the origin, facing up at first, and returns
    /// the polylines traced. The turtle is left with the heading that the
    /// walk ends with.
    pub fn create_lines_from_expression(&mut self, expression: SystemExpression) -> (lines: Lines)
        ensures
            lines_view(lines@) == trace(expression@),
            final(self).heading() == net_turns(expression@),
            lines@.len() == 1 + count_of(expression@, BaseSymbols::ForwardNoLine),
            count_points(lines_view(lines@)) == 1 + count_edges(expression@),
    {
        let ghost symbols = expression@;
        let mut lines: Lines = Vec::new();
        let mut current_line: Vec<Vertex> = Vec::new();
        self.heading = 0;
        current_line.push(Vertex { step: 0, heading: 0 });
        let mut steps: usize = 0;
        let n = expression.0.len();
        proof {
            assert(symbols.take(0) =~= Seq::empty());
            assert(lines_view(lines@.push(current_line)) =~~= trace(symbols.take(0)));
        }
        for i in 0..n
            invariant
                n == symbols.len(),
                symbols == expression@,
                steps == count_edges(symbols.take(i as int)),
                steps <= i,
                self.heading() == net_turns(symbols.take(i as int)),
                -i <= self.heading() <= i,
                lines_view(lines@.push(current_line)) == trace(symbols.take(i as int)),
        {
            let ghost before = symbols.take(i as int);
            proof {
                assert(symbols.take(i + 1).drop_last() =~= before);
            }
            match expression.0[i] {
                BaseSymbols::AngleIncrement => self.increment_angle(),
                BaseSymbols::AngleDecrement => self.decrement_angle(),
                BaseSymbols::Forward => {
                    steps = steps + 1;
                    let vertex = Vertex { step: steps, heading: self.heading };
                    current_line.push(vertex);
                    proof {
                        let traced = trace(before);
                        assert(lines_view(lines@.push(current_line)) =~~= traced.drop_last().push(
                            traced.last().push(vertex@),
                        ));
                    }
                },
                BaseSymbols::ForwardNoLine => {
                    steps = steps + 1;
                    let vertex = Vertex { step: steps, heading: self.heading };
                    lines.push(current_line);
                    current_line = Vec::new();
                    current_line.push(vertex);
                    proof {
                        assert(lines_view(lines@.push(current_line)) =~~= trace(before).push(
                            seq![vertex@],
                        ));
                    }
                },
            }
        }
        lines.push(current_line);
        proof {
            assert(symbols.take(n as int) =~= symbols);
            lemma_trace_line_count(symbols);
            lemma_trace_point_count(symbols);
        }
        lines
    }

    /// One turn to the left.
    fn increment_angle(&mut self)
        requires
            old(self).heading() < i128::MAX,
        ensures
            final(self).heading() == old(self).heading() + 1,
    {
        self.heading = self.heading + 1;
    }

    /// One turn to the right.
    fn decrement_angle(&mut self)
        requires
            old(self).heading() > i128::MIN,
        ensures
            final(self).heading() == old(self).heading() - 1,
    {
        self.heading = self.heading - 1;
    }
}

/// A drawing has one polyline, and one more for each undrawn step.
pub proof fn lemma_trace_line_count(symbols: Seq<BaseSymbols>)
    ensures
        trace(symbols).len() == 1 + count_of(symbols, BaseSymbols::ForwardNoLine),
    decreases symbols.len(),
{
    if symbols.len() > 0 {
        lemma_trace_line_count(symbols.drop_last());
    }
}

/// No polyline of a drawing is empty.
pub proof fn lemma_trace_lines_nonempty(symbols: Seq<BaseSymbols>)
    ensures
        forall|i: int| 0 <= i < trace(symbols).len() ==> (#[trigger] trace(symbols)[i]).len() > 0,
    decreases symbols.len(),
{
    if symbols.len() > 0 {
        lemma_trace_lines_nonempty(symbols.drop_last());
        lemma_trace_line_count(symbols.drop_last());
    }
}

/// The polylines of a drawing, read one after the other, are the path of the
/// turtle: every vertex of the path lies on one polyline, once, and the
/// polylines keep the order of the path.
pub proof fn lemma_trace_follows_path(symbols: Seq<BaseSymbols>)
    ensures
        trace(symbols).flatten() == path(symbols),
    decreases symbols.len(),
{
    if symbols.len() == 0 {
        trace(symbols).lemma_flatten_one_element();
    } else {
        let before = symbols.drop_last();
        let lines = trace(before);
        let next = arrival(before);
        lemma_trace_follows_path(before);
        lemma_trace_line_count(before);
        assert(lines.drop_last().push(lines.last()) =~= lines);
        lines.drop_last().lemma_flatten_push(lines.last());
        match symbols.last() {
            BaseSymbols::Forward => {
                lines.drop_last().lemma_flatten_push(lines.last().push(next));
                assert(lines.drop_last().flatten() + lines.last().push(next) =~= (
                lines.drop_last().flatten() + lines.last()).push(next));
            },
            BaseSymbols::ForwardNoLine => {
                lines.lemma_flatten_push(seq![next]);
                assert(lines.flatten() + seq![next] =~= lines.flatten().push(next));
            },
            _ => {},
        }
    }
}

/// The path has one vertex, and one more for each step; its vertices are
/// numbered from 0 in the order of the path.
pub proof fn lemma_path_steps(symbols: Seq<BaseSymbols>)
    ensures
        path(symbols).len() == 1 + count_edges(symbols),
        forall|k: int| 0 <= k < path(symbols).len() ==> (#[trigger] path(symbols)[k]).step == k,
    decreases symbols.len(),
{
    if symbols.len() > 0 {
        lemma_path_steps(symbols.drop_last());
    }
}

/// A turtle that is never told to turn keeps facing up.
pub proof fn lemma_path_without_turns(symbols: Seq<BaseSymbols>)
    requires
        count_of(symbols, BaseSymbols::AngleIncrement) == 0,
        count_of(symbols, BaseSymbols::AngleDecrement) == 0,
    ensures
        forall|k: int| 0 <= k < path(symbols).len() ==> (#[trigger] path(symbols)[k]).heading == 0,
    decreases symbols.len(),
{
    if symbols.len() > 0 {
        let before = symbols.drop_last();
        lemma_path_without_turns(before);
        assert(net_turns(before) == 0);
        assert forall|k: int| 0 <= k < path(symbols).len() implies (#[trigger] path(
            symbols,
        )[k]).heading == 0 by {
            if k < path(before).len() {
                assert(path(symbols)[k] == path(before)[k]);
            }
        }
    }
}

/// A drawing has one vertex, and one more for each step, drawn or not.
pub proof fn lemma_trace_point_count(symbols: Seq<BaseSymbols>)
    ensures
        count_points(trace(symbols)) == 1 + count_of(symbols, BaseSymbols::Forward) + count_of(
            symbols,
            BaseSymbols::ForwardNoLine,
        ),
{
    lemma_trace_follows_path(symbols);
    lemma_path_steps(symbols);
}

} // verus!
