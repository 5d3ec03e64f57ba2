//! Entities: the values that the clients of a room share.
use vstd::prelude::*;

use crate::acl::{Acl, Interest, Principle, Role};
use crate::json::{JsonMembers, JsonObject};
use crate::text::same;

verus! {

/// A list with the same items.
pub fn copied<T: Copy>(v: &Vec<T>) -> (r: Vec<T>)
    ensures
        r@ == v@,
{
    let mut out: Vec<T> = Vec::new();
    for i in 0..v.len()
        invariant
            out@ == v@.take(i as int),
    {
        out.push(v[i]);
        assert(v@.take(i + 1) =~= v@.take(i as int).push(v@[i as int]));
    }
    assert(v@.take(v@.len() as int) =~= v@);
    out
}

/// A colour in eight bits for each of red, green, blue and alpha.
#[derive(Debug, Clone, Copy, PartialEq, Eq, Structural)]
pub struct Rgba {
    pub r: u8,
    pub g: u8,
    pub b: u8,
    pub a: u8,
}

/// A point of a line; each coordinate is held as the bits of a 32 bit floating point number.
#[derive(Debug, Clone, Copy, PartialEq, Eq, Structural)]
pub struct JBPoint {
    pub x: u32,
    pub y: u32,
}

/// The size of a drawing in pixels.
#[derive(Debug, Clone, Copy, PartialEq, Eq, Structural)]
pub struct JBSize {
    pub width: u32,
    pub height: u32,
}

/// One line of a drawing; `weight` holds the bits of a 32 bit floating point number.
#[derive(Debug)]
pub struct JBLine {
    pub color: Rgba,
    pub weight: u32,
    pub layer: usize,
    pub points: Vec<JBPoint>,
    pub index: usize,
}

/// What a line says.
#[verifier::ext_equal]
pub struct LineView {
    pub color: Rgba,
    pub weight: u32,
    pub layer: usize,
    pub points: Seq<JBPoint>,
    pub index: usize,
}

impl View for JBLine {
    type V = LineView;

    open spec fn view(&self) -> LineView {
        LineView {
            color: self.color,
            weight: self.weight,
            layer: self.layer,
            points: self.points@,
            index: self.index,
        }
    }
}

/// What a list of lines says.
pub open spec fn line_views(v: Seq<JBLine>) -> Seq<LineView> {
    Seq::new(v.len(), |i: int| v[i]@)
}

/// The lines are in the order of their indices.
pub open spec fn in_index_order(v: Seq<LineView>) -> bool {
    forall|i: int, j: int| 0 <= i <= j < v.len() ==> v[i].index <= v[j].index
}

impl JBLine {
    /// Another line that says the same.
    pub fn duplicate(&self) -> (r: JBLine)
        ensures
            r@ == self@,
    {
        JBLine {
            color: self.color,
            weight: self.weight,
            layer: self.layer,
            points: copied(&self.points),
            index: self.index,
        }
    }
}

/// The number of layers of a drawing that names none.
pub fn one() -> (r: usize)
    ensures
        r == 1,
{
    1
}

/// A drawing.
#[derive(Debug)]
pub struct JBDoodle {
    pub colors: Vec<Rgba>,
    pub live: bool,
    pub max_points: usize,
    pub max_layer: usize,
    pub size: JBSize,
    pub weights: Option<Vec<u32>>,
    pub lines: Vec<JBLine>,
}

/// What a drawing says.
#[verifier::ext_equal]
pub struct DoodleView {
    pub colors: Seq<Rgba>,
    pub live: bool,
    pub max_points: usize,
    pub max_layer: usize,
    pub size: JBSize,
    pub weights: Option<Seq<u32>>,
    pub lines: Seq<LineView>,
}

impl View for JBDoodle {
    type V = DoodleView;

    open spec fn view(&self) -> DoodleView {
        DoodleView {
            colors: self.colors@,
            live: self.live,
            max_points: self.max_points,
            max_layer: self.max_layer,
            size: self.size,
            weights: match self.weights {
                Some(w) => Some(w@),
                None => None,
            },
            lines: line_views(self.lines@),
        }
    }
}

/// A stroke along a path of at least two points on one layer.
#[derive(Debug)]
pub struct Stroke {
    pub layer: usize,
    pub start: JBPoint,
    pub rest: Vec<JBPoint>,
    pub color: Rgba,
    pub weight: u32,
}

/// What a stroke says.
#[verifier::ext_equal]
pub struct StrokeView {
    pub layer: usize,
    pub start: JBPoint,
    pub rest: Seq<JBPoint>,
    pub color: Rgba,
    pub weight: u32,
}

impl View for Stroke {
    type V = StrokeView;

    open spec fn view(&self) -> StrokeView {
        StrokeView {
            layer: self.layer,
            start: self.start,
            rest: self.rest@,
            color: self.color,
            weight: self.weight,
        }
    }
}

/// What a list of strokes says.
pub open spec fn stroke_views(v: Seq<Stroke>) -> Seq<StrokeView> {
    Seq::new(v.len(), |i: int| v[i]@)
}

/// How a drawing is painted: the strokes, one after the other, each on its own layer, and then the
/// layers of `overlays`, one after the other, over layer zero.
#[derive(Debug)]
pub struct RenderPlan {
    pub size: JBSize,
    pub layers: usize,
    pub strokes: Vec<Stroke>,
    pub overlays: Vec<usize>,
}

/// The stroke of a line.
pub open spec fn stroke_of(l: LineView) -> StrokeView {
    StrokeView {
        layer: l.layer,
        start: l.points[0],
        rest: l.points.skip(1),
        color: l.color,
        weight: l.weight,
    }
}

/// The strokes of the lines that have points, in the order of the lines.
pub open spec fn strokes_of(lines: Seq<LineView>) -> Seq<StrokeView>
    decreases lines.len(),
{
    if lines.len() == 0 {
        Seq::empty()
    } else if lines.last().points.len() == 0 {
        strokes_of(lines.drop_last())
    } else {
        strokes_of(lines.drop_last()).push(stroke_of(lines.last()))
    }
}

/// The lines that have points, in their order.
pub open spec fn drawn(lines: Seq<LineView>) -> Seq<LineView> {
    lines.filter(|l: LineView| l.points.len() > 0)
}

/// There is one stroke for each line, in the order of the lines: along all its points, with its
/// colour and its weight, on its layer.
pub open spec fn paints(strokes: Seq<StrokeView>, lines: Seq<LineView>) -> bool {
    &&& strokes.len() == lines.len()
    &&& forall|i: int|
        0 <= i < strokes.len() ==> {
            &&& seq![(#[trigger] strokes[i]).start] + strokes[i].rest == lines[i].points
            &&& strokes[i].color == lines[i].color
            &&& strokes[i].weight == lines[i].weight
            &&& strokes[i].layer == lines[i].layer
        }
}

/// The drawing can be painted: it has an area and a layer, and each line either has no point or is
/// a path on one of the layers.
pub open spec fn can_render(d: DoodleView) -> bool {
    &&& d.size.width > 0
    &&& d.size.height > 0
    &&& d.max_layer > 0
    &&& forall|i: int|
        0 <= i < d.lines.len() ==> (#[trigger] d.lines[i]).points.len() == 0 || (
        d.lines[i].points.len() >= 2 && d.lines[i].layer < d.max_layer)
}

impl JBDoodle {
    /// Another drawing that says the same.
    pub fn duplicate(&self) -> (r: JBDoodle)
        ensures
            r@ == self@,
    {
        let mut lines: Vec<JBLine> = Vec::new();
        for i in 0..self.lines.len()
            invariant
                line_views(lines@) =~= line_views(self.lines@).take(i as int),
        {
            let ghost all = line_views(self.lines@);
            let ghost before = line_views(lines@);
            lines.push(self.lines[i].duplicate());
            proof {
                assert(line_views(lines@) =~= before.push(all[i as int]));
                assert(all.take(i + 1) =~= all.take(i as int).push(all[i as int]));
            }
        }
        let weights = match &self.weights {
            Some(w) => Some(copied(w)),
            None => None,
        };
        let r = JBDoodle {
            colors: copied(&self.colors),
            live: self.live,
            max_points: self.max_points,
            max_layer: self.max_layer,
            size: self.size,
            weights,
            lines,
        };
        assert(r@ =~= self@);
        r
    }

    /// Adds a line and brings the lines into the order of their indices. Where indices are equal,
    /// their lines may come in any order.
    pub fn add_line(&mut self, line: JBLine)
        ensures
            in_index_order(final(self)@.lines),
            forall|i: int, j: int|
                0 <= i < j < final(self)@.lines.len() ==> (#[trigger] final(self)@.lines[i]).index
                    <= (#[trigger] final(self)@.lines[j]).index,
            final(self)@.lines.to_multiset() == old(self)@.lines.push(line@).to_multiset(),
            final(self)@ == (DoodleView { lines: final(self)@.lines, ..old(self)@ }),
    {
        let ghost before = line_views(self.lines@);
        self.lines.push(line);
        assert(line_views(self.lines@) =~= before.push(line@));
        sort_lines(&mut self.lines);
    }

    /// Whether the drawing can be painted.
    pub fn is_renderable(&self) -> (r: bool)
        ensures
            r == can_render(self@),
    {
        if self.size.width == 0 || self.size.height == 0 || self.max_layer == 0 {
            return false;
        }
        for i in 0..self.lines.len()
            invariant
                forall|j: int|
                    0 <= j < i ==> (#[trigger] self@.lines[j]).points.len() == 0 || (
                    self@.lines[j].points.len() >= 2 && self@.lines[j].layer < self.max_layer),
        {
            let l = &self.lines[i];
            if l.points.len() == 1 || (l.points.len() > 0 && l.layer >= self.max_layer) {
                assert(self@.lines[i as int] == l@);
                return false;
            }
        }
        true
    }

    /// How the drawing is painted.
    pub fn render(&self) -> (r: RenderPlan)
        requires
            can_render(self@),
        ensures
            r.size == self@.size,
            r.layers == self@.max_layer,
            stroke_views(r.strokes@) == strokes_of(self@.lines),
            paints(stroke_views(r.strokes@), drawn(self@.lines)),
            r.overlays@ == Seq::new((self@.max_layer - 1) as nat, |i: int| (i + 1) as usize),
    {
        let ghost lines = self@.lines;
        let mut strokes: Vec<Stroke> = Vec::new();
        assert(lines.take(0) =~= Seq::<LineView>::empty());
        assert(stroke_views(strokes@) =~= strokes_of(lines.take(0)));
        for i in 0..self.lines.len()
            invariant
                lines == line_views(self.lines@),
                stroke_views(strokes@) == strokes_of(lines.take(i as int)),
        {
            let l = &self.lines[i];
            let ghost before = stroke_views(strokes@);
            assert(lines.take(i + 1).drop_last() =~= lines.take(i as int));
            assert(lines.take(i + 1).last() == l@);
            if l.points.len() > 0 {
                let mut rest: Vec<JBPoint> = Vec::new();
                for k in 1..l.points.len()
                    invariant
                        rest@ =~= l.points@.subrange(1, k as int),
                {
                    rest.push(l.points[k]);
                }
                assert(rest@ =~= l@.points.skip(1));
                strokes.push(
                    Stroke {
                        layer: l.layer,
                        start: l.points[0],
                        rest,
                        color: l.color,
                        weight: l.weight,
                    },
                );
                assert(stroke_views(strokes@) =~= before.push(stroke_of(l@)));
            }
        }
        proof {
            assert(lines.take(lines.len() as int) =~= lines);
            law_lines_are_painted_as_drawn(lines);
        }
        let mut overlays: Vec<usize> = Vec::new();
        for k in 1..self.max_layer
            invariant
                overlays@ =~= Seq::new((k - 1) as nat, |i: int| (i + 1) as usize),
        {
            overlays.push(k);
        }
        RenderPlan { size: self.size, layers: self.max_layer, strokes, overlays }
    }
}

/// The strokes on one layer, in their order.
pub open spec fn strokes_on(strokes: Seq<StrokeView>, layer: usize) -> Seq<StrokeView> {
    strokes.filter(|s: StrokeView| s.layer == layer)
}

/// The lines on one layer, in their order.
pub open spec fn lines_on(lines: Seq<LineView>, layer: usize) -> Seq<LineView> {
    lines.filter(|l: LineView| l.layer == layer)
}

/// The two drawings are painted alike: they have the same size and as many layers, and on each
/// layer the same strokes, one after the other.
pub open spec fn painted_alike(a: DoodleView, b: DoodleView) -> bool {
    &&& a.size == b.size
    &&& a.max_layer == b.max_layer
    &&& forall|layer: usize| #[trigger]
        strokes_on(strokes_of(a.lines), layer) == strokes_on(strokes_of(b.lines), layer)
}

/// The drawing with a line and the next one swapped.
pub open spec fn with_swapped(d: DoodleView, i: int) -> DoodleView {
    DoodleView { lines: d.lines.update(i, d.lines[i + 1]).update(i + 1, d.lines[i]), ..d }
}

/// The strokes on a layer are those of the lines on it, in the order of the lines, whatever lines
/// there are on other layers.
pub proof fn law_layers_are_painted_apart(lines: Seq<LineView>, layer: usize)
    ensures
        strokes_on(strokes_of(lines), layer) == strokes_of(lines_on(lines, layer)),
    decreases lines.len(),
{
    reveal(Seq::filter);
    if lines.len() > 0 {
        let head = lines.drop_last();
        let last = lines.last();
        law_layers_are_painted_apart(head, layer);
        if last.layer == layer {
            assert(lines_on(lines, layer).drop_last() =~= lines_on(head, layer));
        }
        if last.points.len() > 0 {
            assert(strokes_of(lines).drop_last() =~= strokes_of(head));
        }
    }
}

/// Only the order of the lines on one layer matters: a drawing in which two neighbouring lines on
/// different layers are swapped can be painted too, and is painted alike.
pub proof fn law_lines_on_different_layers_swap(d: DoodleView, i: int)
    requires
        can_render(d),
        0 <= i < d.lines.len() - 1,
        d.lines[i].layer != d.lines[i + 1].layer,
    ensures
        can_render(with_swapped(d, i)),
        painted_alike(with_swapped(d, i), d),
{
    let e = with_swapped(d, i);
    let x = d.lines[i];
    let y = d.lines[i + 1];
    let head = d.lines.take(i);
    let tail = d.lines.skip(i + 2);
    assert(d.lines =~= head + seq![x, y] + tail);
    assert(e.lines =~= head + seq![y, x] + tail);
    assert forall|layer: usize| #[trigger]
        strokes_on(strokes_of(e.lines), layer) == strokes_on(strokes_of(d.lines), layer) by {
        let on = |l: LineView| l.layer == layer;
        law_layers_are_painted_apart(d.lines, layer);
        law_layers_are_painted_apart(e.lines, layer);
        Seq::filter_distributes_over_add(head + seq![x, y], tail, on);
        Seq::filter_distributes_over_add(head + seq![y, x], tail, on);
        Seq::filter_distributes_over_add(head, seq![x, y], on);
        Seq::filter_distributes_over_add(head, seq![y, x], on);
        lemma_one_on_layer(x, y, layer);
        lemma_one_on_layer(y, x, layer);
        assert(seq![x, y].filter(on) == seq![y, x].filter(on));
        assert(lines_on(e.lines, layer) == lines_on(d.lines, layer));
    }
}

/// Of two lines on different layers, at most one is on the given layer.
proof fn lemma_one_on_layer(x: LineView, y: LineView, layer: usize)
    requires
        x.layer != y.layer,
    ensures
        lines_on(seq![x, y], layer) == (if x.layer == layer {
            seq![x]
        } else if y.layer == layer {
            seq![y]
        } else {
            Seq::empty()
        }),
{
    reveal_with_fuel(Seq::filter, 3);
    assert(seq![x, y].drop_last() =~= seq![x]);
    assert(seq![x].drop_last() =~= Seq::empty());
    assert(lines_on(seq![x, y], layer) =~= (if x.layer == layer {
        seq![x]
    } else if y.layer == layer {
        seq![y]
    } else {
        Seq::empty()
    }));
}

/// The strokes are those of the lines that have points.
proof fn lemma_strokes_are_drawn(lines: Seq<LineView>)
    ensures
        strokes_of(lines) == drawn(lines).map_values(|l: LineView| stroke_of(l)),
    decreases lines.len(),
{
    reveal(Seq::filter);
    if lines.len() > 0 {
        lemma_strokes_are_drawn(lines.drop_last());
    }
    assert(strokes_of(lines) =~= drawn(lines).map_values(|l: LineView| stroke_of(l)));
}

/// A drawing is painted line by line: for each line that has points, in the order of the lines,
/// there is one stroke along its points, from the first one to the last, with its colour and its
/// weight, on its layer. There are no other strokes.
pub proof fn law_lines_are_painted_as_drawn(lines: Seq<LineView>)
    ensures
        paints(strokes_of(lines), drawn(lines)),
        (forall|i: int| 0 <= i < lines.len() ==> (#[trigger] lines[i]).points.len() > 0) ==> paints(
            strokes_of(lines),
            lines,
        ),
{
    lemma_strokes_are_drawn(lines);
    let shown = drawn(lines);
    assert forall|i: int| 0 <= i < shown.len() implies seq![
        (#[trigger] strokes_of(lines)[i]).start,
    ] + strokes_of(lines)[i].rest == shown[i].points by {
        lines.lemma_filter_pred(|l: LineView| l.points.len() > 0, i);
        assert(shown[i].points.len() > 0);
        assert(seq![shown[i].points[0]] + shown[i].points.skip(1) =~= shown[i].points);
    }
    if forall|i: int| 0 <= i < lines.len() ==> (#[trigger] lines[i]).points.len() > 0 {
        lemma_all_drawn(lines);
    }
}

/// Where every line has points, all are drawn.
proof fn lemma_all_drawn(lines: Seq<LineView>)
    requires
        forall|i: int| 0 <= i < lines.len() ==> (#[trigger] lines[i]).points.len() > 0,
    ensures
        drawn(lines) == lines,
    decreases lines.len(),
{
    reveal(Seq::filter);
    if lines.len() > 0 {
        let head = lines.drop_last();
        assert forall|i: int| 0 <= i < head.len() implies (#[trigger] head[i]).points.len() > 0 by {
            assert(head[i] == lines[i]);
        }
        lemma_all_drawn(head);
        assert(lines[lines.len() - 1].points.len() > 0);
        assert(drawn(lines) =~= lines);
    } else {
        assert(drawn(lines) =~= lines);
    }
}

/// Brings lines into the order of their indices.
fn sort_lines(lines: &mut Vec<JBLine>)
    ensures
        in_index_order(line_views(final(lines)@)),
        line_views(final(lines)@).to_multiset() == line_views(old(lines)@).to_multiset(),
{
    let ghost start = line_views(lines@).to_multiset();
    let n: usize = lines.len();
    let mut i: usize = 0;
    while i < n
        invariant
            n == lines@.len(),
            i <= n,
            in_index_order(line_views(lines@).take(i as int)),
            line_views(lines@).to_multiset() == start,
        decreases n - i,
    {
        let key: usize = lines[i].index;
        let mut j: usize = i;
        while j > 0 && lines[j - 1].index > key
            invariant
                j <= i < n,
                n == lines@.len(),
                forall|k: int| j <= k < i ==> lines@[k].index > key,
            decreases j,
        {
            j = j - 1;
        }
        let ghost s0 = line_views(lines@);
        let ghost p0 = s0.take(i as int);
        if j < i {
            let l = lines.remove(i);
            let ghost s1 = line_views(lines@);
            assert(s1 =~= s0.remove(i as int));
            lines.insert(j, l);
            let ghost s2 = line_views(lines@);
            proof {
                assert(s2 =~= s1.insert(j as int, l@));
                assert(s2.remove(j as int) =~= s1);
                vstd::seq_lib::to_multiset_remove(s0, i as int);
                vstd::seq_lib::to_multiset_remove(s2, j as int);
                lemma_put_back(s0, s2, i as int, j as int);
            }
        }
        proof {
            let s2 = line_views(lines@);
            let t = s2.take(i + 1);
            assert forall|a: int, b: int| 0 <= a <= b < t.len() implies #[trigger] t[a].index
                <= #[trigger] t[b].index by {
                let pa = if a < j { a } else { a - 1 };
                let pb = if b < j { b } else { b - 1 };
                if a != j && b != j {
                    assert(p0[pa].index <= p0[pb].index);
                }
                if b == j && a < j {
                    assert(p0[a].index <= p0[j - 1].index);
                }
            }
        }
        i = i + 1;
    }
    assert(line_views(lines@).take(n as int) =~= line_views(lines@));
}

/// Taking an item out at one place and putting it in at another keeps what there is.
proof fn lemma_put_back(s0: Seq<LineView>, s2: Seq<LineView>, i: int, j: int)
    requires
        0 <= i < s0.len(),
        0 <= j < s2.len(),
        s0[i] == s2[j],
        s0.remove(i) == s2.remove(j),
    ensures
        s0.to_multiset() == s2.to_multiset(),
{
    broadcast use vstd::seq_lib::group_to_multiset_ensures;

    vstd::seq_lib::to_multiset_remove(s0, i);
    vstd::seq_lib::to_multiset_remove(s2, j);
    assert(s0.contains(s0[i]));
    assert(s2.contains(s2[j]));
    let m = s0.remove(i).to_multiset();
    assert(s0.to_multiset() =~= m.insert(s0[i]));
    assert(s2.to_multiset() =~= m.insert(s0[i]));
}

/// The kind of an entity.
#[derive(Debug, Clone, Copy, PartialEq, Eq, Structural)]
pub enum JBType {
    Text,
    Number,
    Object,
    Doodle,
}

/// The name of a kind.
pub open spec fn type_text(t: JBType) -> Seq<char> {
    match t {
        JBType::Text => "text"@,
        JBType::Number => "number"@,
        JBType::Object => "object"@,
        JBType::Doodle => "doodle"@,
    }
}

/// The kind with the given name.
pub open spec fn type_value(s: Seq<char>) -> Option<JBType> {
    if s == "text"@ {
        Some(JBType::Text)
    } else if s == "number"@ {
        Some(JBType::Number)
    } else if s == "object"@ {
        Some(JBType::Object)
    } else if s == "doodle"@ {
        Some(JBType::Doodle)
    } else {
        None
    }
}

/// The name of a kind leads back to that kind.
pub proof fn law_type_reads_back(t: JBType)
    ensures
        type_value(type_text(t)) == Some(t),
{
    reveal_strlit("text");
    reveal_strlit("number");
    reveal_strlit("object");
    reveal_strlit("doodle");
    assert("text"@[0] == 't');
    assert("number"@[0] == 'n');
    assert("object"@[0] == 'o');
    assert("doodle"@[0] == 'd');
}

impl JBType {
    /// The name of the kind.
    pub fn to_text(self) -> (r: String)
        ensures
            r@ == type_text(self),
    {
        match self {
            JBType::Text => "text".to_owned(),
            JBType::Number => "number".to_owned(),
            JBType::Object => "object".to_owned(),
            JBType::Doodle => "doodle".to_owned(),
        }
    }

    /// The kind with the given name.
    pub fn from_str(s: &str) -> (r: Result<JBType, ()>)
        ensures
            match r {
                Ok(t) => type_value(s@) == Some(t),
                Err(_) => type_value(s@) is None,
            },
    {
        if same(s, "text") {
            Ok(JBType::Text)
        } else if same(s, "number") {
            Ok(JBType::Number)
        } else if same(s, "object") {
            Ok(JBType::Object)
        } else if same(s, "doodle") {
            Ok(JBType::Doodle)
        } else {
            Err(())
        }
    }
}

/// The value of an entity; a number is held as the bits of a 64 bit floating point number.
#[derive(Debug)]
pub enum JBValue {
    Text(String),
    Number(u64),
    Object(JsonObject),
    Doodle(JBDoodle),
}

/// What a value says.
#[verifier::ext_equal]
pub enum ValueView {
    Text(Seq<char>),
    Number(u64),
    Object(JsonMembers),
    Doodle(DoodleView),
}

impl View for JBValue {
    type V = ValueView;

    open spec fn view(&self) -> ValueView {
        match self {
            JBValue::Text(t) => ValueView::Text(t@),
            JBValue::Number(n) => ValueView::Number(*n),
            JBValue::Object(o) => ValueView::Object(o@),
            JBValue::Doodle(d) => ValueView::Doodle(d@),
        }
    }
}

impl JBValue {
    /// Another value that says the same.
    pub fn duplicate(&self) -> (r: JBValue)
        ensures
            r@ == self@,
    {
        match self {
            JBValue::Text(t) => JBValue::Text(t.clone()),
            JBValue::Number(n) => JBValue::Number(*n),
            JBValue::Object(o) => JBValue::Object(o.duplicate()),
            JBValue::Doodle(d) => JBValue::Doodle(d.duplicate()),
        }
    }
}

/// What a client may set an entity to; the numbers hold the bits of 64 bit floating point numbers.
#[derive(Debug)]
pub struct JBRestrictions {
    pub data_type: String,
    pub min: Option<u64>,
    pub max: Option<u64>,
    pub increment: Option<u64>,
}

/// What restrictions say.
#[verifier::ext_equal]
pub struct RestrictionsView {
    pub data_type: Seq<char>,
    pub min: Option<u64>,
    pub max: Option<u64>,
    pub increment: Option<u64>,
}

impl View for JBRestrictions {
    type V = RestrictionsView;

    open spec fn view(&self) -> RestrictionsView {
        RestrictionsView {
            data_type: self.data_type@,
            min: self.min,
            max: self.max,
            increment: self.increment,
        }
    }
}

/// Restrictions that restrict nothing.
pub open spec fn no_restrictions() -> RestrictionsView {
    RestrictionsView { data_type: Seq::empty(), min: None, max: None, increment: None }
}

impl Default for JBRestrictions {
    fn default() -> (r: JBRestrictions)
        ensures
            r@ == no_restrictions(),
    {
        JBRestrictions { data_type: String::new(), min: None, max: None, increment: None }
    }
}

impl JBRestrictions {
    /// Other restrictions that say the same.
    pub fn duplicate(&self) -> (r: JBRestrictions)
        ensures
            r@ == self@,
    {
        JBRestrictions {
            data_type: self.data_type.clone(),
            min: self.min,
            max: self.max,
            increment: self.increment,
        }
    }
}

/// The part of an entity that clients see.
#[derive(Debug)]
pub struct JBObject {
    pub key: String,
    pub val: Option<JBValue>,
    pub restrictions: JBRestrictions,
    pub version: u32,
    pub from: i64,
}

/// What that part says.
#[verifier::ext_equal]
pub struct ObjectView {
    pub key: Seq<char>,
    pub val: Option<ValueView>,
    pub restrictions: RestrictionsView,
    pub version: u32,
    pub from: i64,
}

impl View for JBObject {
    type V = ObjectView;

    open spec fn view(&self) -> ObjectView {
        ObjectView {
            key: self.key@,
            val: match self.val {
                Some(v) => Some(v@),
                None => None,
            },
            restrictions: self.restrictions@,
            version: self.version,
            from: self.from,
        }
    }
}

impl JBObject {
    /// Another object that says the same.
    pub fn duplicate(&self) -> (r: JBObject)
        ensures
            r@ == self@,
    {
        JBObject {
            key: self.key.clone(),
            val: match &self.val {
                Some(v) => Some(v.duplicate()),
                None => None,
            },
            restrictions: self.restrictions.duplicate(),
            version: self.version,
            from: self.from,
        }
    }
}

/// Whether an entity is locked, and who may read and write it.
#[derive(Debug)]
pub struct JBAttributes {
    pub locked: bool,
    pub acl: Vec<Acl>,
}

/// What attributes say.
#[verifier::ext_equal]
pub struct AttributesView {
    pub locked: bool,
    pub acl: Seq<Acl>,
}

impl View for JBAttributes {
    type V = AttributesView;

    open spec fn view(&self) -> AttributesView {
        AttributesView { locked: self.locked, acl: self.acl@ }
    }
}

/// Some entry of the list speaks of the client.
pub open spec fn some_covers(acl: Seq<Acl>, role: Role, id: i64) -> bool {
    exists|k: int| 0 <= k < acl.len() && (#[trigger] acl[k]).principle.covers(role, id)
}

/// Some entry of the list lets the client read.
pub open spec fn some_reads(acl: Seq<Acl>, role: Role, id: i64) -> bool {
    exists|k: int|
        0 <= k < acl.len() && (#[trigger] acl[k]).principle.covers(role, id)
            && acl[k].interest.readable
}

/// Some entry of the list lets the client write.
pub open spec fn some_writes(acl: Seq<Acl>, role: Role, id: i64) -> bool {
    exists|k: int|
        0 <= k < acl.len() && (#[trigger] acl[k]).principle.covers(role, id)
            && acl[k].interest.writable
}

/// Some entry of the list gives the client priority.
pub open spec fn some_prioritizes(acl: Seq<Acl>, role: Role, id: i64) -> bool {
    exists|k: int|
        0 <= k < acl.len() && (#[trigger] acl[k]).principle.covers(role, id)
            && acl[k].interest.priority
}

/// What the list lets the client do: a host reads and writes; any other client may do what the
/// entries that speak of it allow together, and nothing where none does.
pub open spec fn perms_of(acl: Seq<Acl>, role: Role, id: i64) -> Option<Interest> {
    if role == Role::Host {
        Some(Interest::read_write())
    } else if some_covers(acl, role, id) {
        Some(
            Interest {
                readable: some_reads(acl, role, id),
                writable: some_writes(acl, role, id),
                priority: some_prioritizes(acl, role, id),
            },
        )
    } else {
        None
    }
}

/// The list lets the client read.
pub open spec fn may_read(acl: Seq<Acl>, role: Role, id: i64) -> bool {
    perms_of(acl, role, id) matches Some(i) && i.readable
}

/// The list lets the client write.
pub open spec fn may_write(acl: Seq<Acl>, role: Role, id: i64) -> bool {
    perms_of(acl, role, id) matches Some(i) && i.writable
}

/// A host reads and writes whatever the list says.
pub proof fn law_host_may_everything(acl: Seq<Acl>, id: i64)
    ensures
        may_read(acl, Role::Host, id),
        may_write(acl, Role::Host, id),
{
}

/// An entity that brings no list is read by everybody and written by hosts alone.
pub proof fn law_default_acl(role: Role, id: i64)
    ensures
        may_read(seq![Acl::everyone_reads()], role, id),
        may_write(seq![Acl::everyone_reads()], role, id) == (role == Role::Host),
        perms_of(seq![Acl::everyone_reads()], role, id) matches Some(i) && !i.priority,
{
    let acl = seq![Acl::everyone_reads()];
    assert(acl[0].principle.covers(role, id));
}

/// A list that holds every entry of another one allows at least what that one does.
pub proof fn law_more_entries_allow_more(fewer: Seq<Acl>, more: Seq<Acl>, role: Role, id: i64)
    requires
        forall|e: Acl| #[trigger] fewer.contains(e) ==> more.contains(e),
    ensures
        perms_of(fewer, role, id) matches Some(p) ==> (perms_of(more, role, id) matches Some(q) && (
        p.readable ==> q.readable) && (p.writable ==> q.writable) && (p.priority ==> q.priority)),
        may_read(fewer, role, id) ==> may_read(more, role, id),
        may_write(fewer, role, id) ==> may_write(more, role, id),
{
    assert forall|k: int| 0 <= k < fewer.len() implies exists|j: int|
        0 <= j < more.len() && more[j] == #[trigger] fewer[k] by {
        assert(fewer.contains(fewer[k]));
    }
}

impl JBAttributes {
    /// What the client with this role and this id may do.
    pub fn perms(&self, role: Role, id: i64) -> (r: Option<Interest>)
        ensures
            r == perms_of(self@.acl, role, id),
    {
        if role == Role::Host {
            return Some(Interest::readable().or(Interest::writable()));
        }
        let mut perms: Option<Interest> = None;
        assert(self.acl@.take(0) =~= Seq::<Acl>::empty());
        for k in 0..self.acl.len()
            invariant
                role != Role::Host,
                perms == perms_of(self.acl@.take(k as int), role, id),
        {
            let entry = self.acl[k];
            let ghost a = self.acl@.take(k as int);
            let ghost b = self.acl@.take(k + 1);
            proof {
                assert(b =~= a.push(entry));
                lemma_perms_push(a, entry, role, id);
            }
            if entry.principle.matches(role, id) {
                let before = match perms {
                    Some(i) => i,
                    None => entry.interest,
                };
                perms = Some(before.or(entry.interest));
            }
        }
        assert(self.acl@.take(self.acl@.len() as int) =~= self.acl@);
        perms
    }

    /// Whether the client with this role and this id may read.
    pub fn readable_by(&self, role: Role, id: i64) -> (r: bool)
        ensures
            r == may_read(self@.acl, role, id),
    {
        match self.perms(role, id) {
            Some(i) => i.is_readable(),
            None => false,
        }
    }

    /// Other attributes that say the same.
    pub fn duplicate(&self) -> (r: JBAttributes)
        ensures
            r@ == self@,
    {
        JBAttributes { locked: self.locked, acl: copied(&self.acl) }
    }
}

/// How one more entry changes what a client may do.
proof fn lemma_perms_push(acl: Seq<Acl>, e: Acl, role: Role, id: i64)
    requires
        role != Role::Host,
    ensures
        perms_of(acl.push(e), role, id) == (if e.principle.covers(role, id) {
            match perms_of(acl, role, id) {
                Some(i) => Some(i.either(e.interest)),
                None => Some(e.interest),
            }
        } else {
            perms_of(acl, role, id)
        }),
{
    let all = acl.push(e);
    assert forall|k: int| 0 <= k < acl.len() implies all[k] == #[trigger] acl[k] by {}
    assert(all[acl.len() as int] == e);
    let covers = e.principle.covers(role, id);
    assert(some_covers(all, role, id) == (some_covers(acl, role, id) || covers)) by {
        if some_covers(acl, role, id) {
            let k = choose|k: int|
                0 <= k < acl.len() && (#[trigger] acl[k]).principle.covers(role, id);
            assert(all[k].principle.covers(role, id));
        }
    }
    assert(some_reads(all, role, id) == (some_reads(acl, role, id) || (covers
        && e.interest.readable))) by {
        if some_reads(acl, role, id) {
            let k = choose|k: int|
                0 <= k < acl.len() && (#[trigger] acl[k]).principle.covers(role, id)
                    && acl[k].interest.readable;
            assert(all[k].interest.readable);
        }
    }
    assert(some_writes(all, role, id) == (some_writes(acl, role, id) || (covers
        && e.interest.writable))) by {
        if some_writes(acl, role, id) {
            let k = choose|k: int|
                0 <= k < acl.len() && (#[trigger] acl[k]).principle.covers(role, id)
                    && acl[k].interest.writable;
            assert(all[k].interest.writable);
        }
    }
    assert(some_prioritizes(all, role, id) == (some_prioritizes(acl, role, id) || (covers
        && e.interest.priority))) by {
        if some_prioritizes(acl, role, id) {
            let k = choose|k: int|
                0 <= k < acl.len() && (#[trigger] acl[k]).principle.covers(role, id)
                    && acl[k].interest.priority;
            assert(all[k].interest.priority);
        }
    }
}

/// An entity: its kind, what clients see of it, and its attributes.
#[derive(Debug)]
pub struct JBEntity(pub JBType, pub JBObject, pub JBAttributes);

/// What an entity says.
#[verifier::ext_equal]
pub struct EntityView {
    pub kind: JBType,
    pub object: ObjectView,
    pub attributes: AttributesView,
}

impl View for JBEntity {
    type V = EntityView;

    open spec fn view(&self) -> EntityView {
        EntityView { kind: self.0, object: self.1@, attributes: self.2@ }
    }
}

impl JBEntity {
    /// Another entity that says the same.
    pub fn duplicate(&self) -> (r: JBEntity)
        ensures
            r@ == self@,
    {
        JBEntity(self.0, self.1.duplicate(), self.2.duplicate())
    }
}

/// The entry is meant for the client: it speaks of everybody, of its role or of its id.
pub open spec fn is_meant(e: Acl, role: Role, id: i64) -> bool {
    e.principle == Principle::Wild || e.principle == Principle::Role(role) || e.principle
        == Principle::Id(id)
}

/// A host reads and writes. Any other client reads, writes or has priority exactly where some entry
/// that is meant for it says so, and is not known to the list where no entry is meant for it.
pub proof fn law_what_a_list_allows(acl: Seq<Acl>, role: Role, id: i64)
    ensures
        role == Role::Host ==> perms_of(acl, role, id) == Some(
            Interest { readable: true, writable: true, priority: false },
        ),
        role != Role::Host ==> match perms_of(acl, role, id) {
            Some(i) => {
                &&& exists|k: int| 0 <= k < acl.len() && is_meant(#[trigger] acl[k], role, id)
                &&& i.readable <==> exists|k: int|
                    0 <= k < acl.len() && is_meant(#[trigger] acl[k], role, id)
                        && acl[k].interest.readable
                &&& i.writable <==> exists|k: int|
                    0 <= k < acl.len() && is_meant(#[trigger] acl[k], role, id)
                        && acl[k].interest.writable
                &&& i.priority <==> exists|k: int|
                    0 <= k < acl.len() && is_meant(#[trigger] acl[k], role, id)
                        && acl[k].interest.priority
            },
            None => forall|k: int| 0 <= k < acl.len() ==> !is_meant(#[trigger] acl[k], role, id),
        },
        may_read(acl, role, id) <==> role == Role::Host || exists|k: int|
            0 <= k < acl.len() && is_meant(#[trigger] acl[k], role, id)
                && acl[k].interest.readable,
        may_write(acl, role, id) <==> role == Role::Host || exists|k: int|
            0 <= k < acl.len() && is_meant(#[trigger] acl[k], role, id)
                && acl[k].interest.writable,
{
    assert forall|k: int| 0 <= k < acl.len() implies (#[trigger] acl[k]).principle.covers(role, id)
        == is_meant(acl[k], role, id) by {}
}

/// The kinds and their names; no other name stands for a kind.
pub proof fn law_kinds_by_name(s: Seq<char>, t: JBType)
    ensures
        type_text(JBType::Text) == "text"@,
        type_text(JBType::Number) == "number"@,
        type_text(JBType::Object) == "object"@,
        type_text(JBType::Doodle) == "doodle"@,
        type_value(s) == Some(t) <==> s == type_text(t),
{
    law_type_reads_back(t);
}

/// A drawing can be painted whatever lines it has, as long as it has an area and a layer and every
/// line that has a point has a second one and is on one of the layers.
pub proof fn law_what_can_be_painted(d: DoodleView)
    ensures
        !can_render(d) <==> d.size.width == 0 || d.size.height == 0 || d.max_layer == 0 || exists|
            i: int,
        |
            0 <= i < d.lines.len() && ((#[trigger] d.lines[i]).points.len() == 1 || (
            d.lines[i].points.len() > 1 && d.lines[i].layer >= d.max_layer)),
{
}

} // verus!
