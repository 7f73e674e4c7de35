use vstd::prelude::*;
use crate::decimal::{int_text, nat_text, push_int};
use crate::reading::{in_range, Temperature, LOW_CENTI};

verus! {

/// A rectangle in window coordinates, edges included as the platform draws them.
#[derive(Clone, Copy, Debug, PartialEq, Eq, Structural)]
pub struct Rect {
    pub left: i32,
    pub top: i32,
    pub right: i32,
    pub bottom: i32,
}

#[derive(Clone, Copy, Debug, PartialEq, Eq, Structural)]
pub enum PenStyle {
    Solid,
    Invisible,
}

/// A pen: its style, width and colour (0x00bbggrr).
#[derive(Clone, Copy, Debug, PartialEq, Eq, Structural)]
pub struct Pen {
    pub style: PenStyle,
    pub width: i32,
    pub color: u32,
}

/// The fixed texts of the window, and the labels of the scale.
#[derive(Clone, Copy, Debug, PartialEq, Eq, Structural)]
pub enum Caption {
    Title,
    Prompt,
    RangeHint,
    Blank,
    Degrees(i64),
}

/// One drawing step of a repaint.
#[derive(Clone, Copy, Debug, PartialEq, Eq, Structural)]
pub enum DrawOp {
    /// A single line of text inside `rect`.
    Text { caption: Caption, rect: Rect },
    /// A rectangle outlined with `pen` and filled with the colour `fill`.
    Rectangle { rect: Rect, pen: Pen, fill: u32 },
    /// A line from `(x1, y1)` to `(x2, y2)`.
    Line { x1: i32, y1: i32, x2: i32, y2: i32, pen: Pen },
}

pub const WHITE: u32 = 0xffffff;
pub const BLACK: u32 = 0x000000;
pub const RED: u32 = 0x0000ff;

/// Number of tick marks on the scale, one every tenth of a degree.
pub const TICK_COUNT: u64 = 31;

/// Number of blanks that wipe the line of the range hint.
pub const BLANK_LEN: u64 = 256;

pub open spec fn outline_pen() -> Pen {
    Pen { style: PenStyle::Solid, width: 4, color: BLACK }
}

pub open spec fn hidden_pen() -> Pen {
    Pen { style: PenStyle::Invisible, width: 0, color: BLACK }
}

pub open spec fn fine_pen() -> Pen {
    Pen { style: PenStyle::Solid, width: 1, color: BLACK }
}

pub open spec fn accent_pen() -> Pen {
    Pen { style: PenStyle::Solid, width: 1, color: RED }
}

pub open spec fn rect(left: i32, top: i32, right: i32, bottom: i32) -> Rect {
    Rect { left, top, right, bottom }
}

/// The text a caption shows.
pub open spec fn caption_text(c: Caption) -> Seq<char> {
    match c {
        Caption::Title => "Temperature \u{b0}C"@,
        Caption::Prompt => "Enter a value to be displayed"@,
        Caption::RangeHint => "Please enter a number from 18.0 to 21.0"@,
        Caption::Blank => Seq::new(BLANK_LEN as nat, |i: int| ' '),
        Caption::Degrees(d) => int_text(d as int) + ".0"@,
    }
}

/// The outline of the vessel, then, for a temperature it shows, its filled
/// part: `fill_height` units above the inset base.
pub open spec fn vessel_ops(t: Temperature) -> Seq<DrawOp> {
    let outline = DrawOp::Rectangle { rect: rect(50, 100, 100, 450), pen: outline_pen(), fill: WHITE };
    if in_range(t) {
        let h = t.centi - LOW_CENTI;
        seq![outline, DrawOp::Rectangle {
            rect: rect(52, (420 - h) as i32, 98, 448),
            pen: hidden_pen(),
            fill: RED,
        }]
    } else {
        seq![outline]
    }
}

/// The drawing steps of tick `i` (0 at the top, 21 degrees): every tenth a
/// long double line with its label, every fifth a middle one in the accent
/// colour, the others short.
pub open spec fn tick_ops(i: int) -> Seq<DrawOp> {
    let y = 120 + 10 * i;
    if i % 10 == 0 {
        seq![
            DrawOp::Line { x1: 100, y1: y as i32, x2: 145, y2: y as i32, pen: fine_pen() },
            DrawOp::Line { x1: 100, y1: (y + 1) as i32, x2: 145, y2: (y + 1) as i32, pen: fine_pen() },
            DrawOp::Text { caption: Caption::Degrees((21 - i / 10) as i64), rect: rect(155, (y - 6) as i32, 400, (y + 300) as i32) },
        ]
    } else if i % 5 == 0 {
        seq![DrawOp::Line { x1: 100, y1: y as i32, x2: 135, y2: y as i32, pen: accent_pen() }]
    } else {
        seq![DrawOp::Line { x1: 100, y1: y as i32, x2: 125, y2: y as i32, pen: fine_pen() }]
    }
}

/// The drawing steps of the first `n` ticks, top down.
pub open spec fn scale_ops(n: int) -> Seq<DrawOp>
    decreases n,
{
    if n <= 0 {
        Seq::empty()
    } else {
        scale_ops(n - 1) + tick_ops(n - 1)
    }
}

/// A full repaint of the window for temperature `t`.
pub open spec fn scene(t: Temperature) -> Seq<DrawOp> {
    seq![DrawOp::Text { caption: Caption::Title, rect: rect(30, 50, 300, 100) }]
        + vessel_ops(t)
        + scale_ops(TICK_COUNT as int)
        + seq![
            DrawOp::Text { caption: Caption::Prompt, rect: rect(30, 480, 300, 580) },
            DrawOp::Text {
                caption: if in_range(t) { Caption::Blank } else { Caption::RangeHint },
                rect: rect(250, 520, 600, 580),
            },
        ]
}

/// The scale labels among drawing steps, in order: each one's text and
/// rectangle.
pub open spec fn labels(ops: Seq<DrawOp>) -> Seq<(Seq<char>, Rect)>
    decreases ops.len(),
{
    if ops.len() == 0 {
        Seq::empty()
    } else {
        let rest = labels(ops.drop_last());
        match ops.last() {
            DrawOp::Text { caption: Caption::Degrees(d), rect } => rest.push(
                (caption_text(Caption::Degrees(d)), rect),
            ),
            _ => rest,
        }
    }
}

proof fn lemma_labels_empty()
    ensures
        labels(Seq::<DrawOp>::empty()) == Seq::<(Seq<char>, Rect)>::empty(),
{
}

proof fn lemma_labels_concat(a: Seq<DrawOp>, b: Seq<DrawOp>)
    ensures
        labels(a + b) == labels(a) + labels(b),
    decreases b.len(),
{
    if b.len() == 0 {
        assert(a + b =~= a);
        assert(labels(a) + labels(b) =~= labels(a));
    } else {
        assert((a + b).drop_last() =~= a + b.drop_last());
        assert((a + b).last() == b.last());
        lemma_labels_concat(a, b.drop_last());
        assert(labels(a + b) =~= labels(a) + labels(b));
    }
}

/// The label of the `j`-th major tick from the top.
pub open spec fn major_label(j: int) -> (Seq<char>, Rect) {
    (caption_text(Caption::Degrees((21 - j) as i64)), rect(155, (114 + 100 * j) as i32, 400, (420 + 100 * j) as i32))
}

proof fn lemma_scale_labels(n: int)
    requires
        0 <= n <= TICK_COUNT,
    ensures
        labels(scale_ops(n)) == Seq::new(((n + 9) / 10) as nat, |j: int| major_label(j)),
    decreases n,
{
    if n == 0 {
        assert(labels(scale_ops(0)) =~= Seq::new(0, |j: int| major_label(j)));
    } else {
        let i = n - 1;
        lemma_scale_labels(i);
        lemma_labels_concat(scale_ops(i), tick_ops(i));
        let t = tick_ops(i);
        lemma_labels_empty();
        if i % 10 == 0 {
            assert(t.drop_last().drop_last().drop_last() =~= Seq::<DrawOp>::empty());
            assert(labels(t.drop_last().drop_last()) == labels(t.drop_last().drop_last().drop_last()));
            assert(labels(t.drop_last()) == labels(t.drop_last().drop_last()));
            assert(labels(t) == labels(t.drop_last()).push(major_label(i / 10)));
            assert(labels(t) =~= seq![major_label(i / 10)]);
        } else {
            assert(t.drop_last() =~= Seq::<DrawOp>::empty());
            assert(labels(t) == labels(t.drop_last()));
        }
        assert(labels(scale_ops(n)) =~= Seq::new(((n + 9) / 10) as nat, |j: int| major_label(j)));
    }
}

/// Whatever the temperature, a repaint labels the scale, top to bottom,
/// "21.0", "20.0", "19.0" and "18.0" and nothing else, one at each major
/// tick, 100 units apart.
pub proof fn lemma_scene_labels(t: Temperature)
    ensures
        labels(scene(t)) == seq![
            ("21.0"@, rect(155, 114, 400, 420)),
            ("20.0"@, rect(155, 214, 400, 520)),
            ("19.0"@, rect(155, 314, 400, 620)),
            ("18.0"@, rect(155, 414, 400, 720)),
        ],
{
    let head = seq![DrawOp::Text { caption: Caption::Title, rect: rect(30, 50, 300, 100) }];
    let tail = seq![
        DrawOp::Text { caption: Caption::Prompt, rect: rect(30, 480, 300, 580) },
        DrawOp::Text {
            caption: if in_range(t) { Caption::Blank } else { Caption::RangeHint },
            rect: rect(250, 520, 600, 580),
        },
    ];
    let sc = scale_ops(TICK_COUNT as int);
    let v = vessel_ops(t);
    assert(scene(t) == head + v + sc + tail);
    lemma_labels_concat(head + v + sc, tail);
    lemma_labels_concat(head + v, sc);
    lemma_labels_concat(head, v);
    lemma_labels_empty();
    assert(head.drop_last() =~= Seq::<DrawOp>::empty());
    assert(labels(head) == labels(head.drop_last()));
    assert(labels(v) =~= Seq::<(Seq<char>, Rect)>::empty()) by {
        if v.len() == 2 {
            assert(v.drop_last().drop_last() =~= Seq::<DrawOp>::empty());
            assert(labels(v.drop_last()) == labels(v.drop_last().drop_last()));
            assert(labels(v) == labels(v.drop_last()));
        } else {
            assert(v.drop_last() =~= Seq::<DrawOp>::empty());
            assert(labels(v) == labels(v.drop_last()));
        }
    }
    assert(tail.drop_last().drop_last() =~= Seq::<DrawOp>::empty());
    assert(labels(tail.drop_last()) == labels(tail.drop_last().drop_last()));
    assert(labels(tail) == labels(tail.drop_last()));
    lemma_scale_labels(TICK_COUNT as int);
    reveal_strlit("21.0");
    reveal_strlit("20.0");
    reveal_strlit("19.0");
    reveal_strlit("18.0");
    reveal_strlit(".0");
    assert(nat_text(2) == seq!['2']);
    assert(nat_text(1) == seq!['1']);
    assert(nat_text(21) == nat_text(2) + seq!['1']);
    assert(nat_text(19) == nat_text(1) + seq!['9']);
    assert(nat_text(21) =~= seq!['2', '1']);
    assert(nat_text(20) =~= seq!['2', '0']);
    assert(nat_text(19) =~= seq!['1', '9']);
    assert(nat_text(18) =~= seq!['1', '8']);
    let all = Seq::new(4, |j: int| major_label(j));
    assert(labels(sc) == all);
    assert(labels(head + v) =~= Seq::<(Seq<char>, Rect)>::empty());
    assert(labels(head + v + sc) =~= all);
    assert(labels(scene(t)) =~= all);
    assert(".0"@ =~= seq!['.', '0']);
    assert(caption_text(Caption::Degrees(21)) =~= "21.0"@);
    assert(caption_text(Caption::Degrees(20)) =~= "20.0"@);
    assert(caption_text(Caption::Degrees(19)) =~= "19.0"@);
    assert(caption_text(Caption::Degrees(18)) =~= "18.0"@);
    assert(all[0] == major_label(0));
    assert(all[3] == major_label(3));
    assert(labels(scene(t)) =~= seq![
        ("21.0"@, rect(155, 114, 400, 420)),
        ("20.0"@, rect(155, 214, 400, 520)),
        ("19.0"@, rect(155, 314, 400, 620)),
        ("18.0"@, rect(155, 414, 400, 720)),
    ]);
}

impl Caption {
    /// The text this caption shows.
    pub fn text(&self) -> (r: String)
        ensures
            r@ == caption_text(*self),
    {
        match self {
            Caption::Title => String::from_str("Temperature \u{b0}C"),
            Caption::Prompt => String::from_str("Enter a value to be displayed"),
            Caption::RangeHint => String::from_str("Please enter a number from 18.0 to 21.0"),
            Caption::Blank => {
                let mut s = String::new();
                let mut i: u64 = 0;
                while i < BLANK_LEN
                    invariant
                        i <= BLANK_LEN,
                        s@ == Seq::new(i as nat, |k: int| ' '),
                    decreases BLANK_LEN - i,
                {
                    proof { reveal_strlit(" "); }
                    s.append(" ");
                    i = i + 1;
                    assert(s@ =~= Seq::new(i as nat, |k: int| ' '));
                }
                s
            },
            Caption::Degrees(d) => {
                let mut s = String::new();
                push_int(&mut s, *d);
                s.append(".0");
                assert(s@ =~= caption_text(*self));
                s
            },
        }
    }
}

fn outline() -> (r: Pen)
    ensures
        r == outline_pen(),
{
    Pen { style: PenStyle::Solid, width: 4, color: BLACK }
}

fn hidden() -> (r: Pen)
    ensures
        r == hidden_pen(),
{
    Pen { style: PenStyle::Invisible, width: 0, color: BLACK }
}

fn fine() -> (r: Pen)
    ensures
        r == fine_pen(),
{
    Pen { style: PenStyle::Solid, width: 1, color: BLACK }
}

fn accent() -> (r: Pen)
    ensures
        r == accent_pen(),
{
    Pen { style: PenStyle::Solid, width: 1, color: RED }
}

/// Appends the drawing steps of the vessel for `t`.
pub fn push_vessel(ops: &mut Vec<DrawOp>, t: &Temperature)
    ensures
        final(ops)@ == old(ops)@ + vessel_ops(*t),
{
    ops.push(DrawOp::Rectangle { rect: Rect { left: 50, top: 100, right: 100, bottom: 450 }, pen: outline(), fill: WHITE });
    if t.in_range() {
        let h = t.fill_height();
        ops.push(DrawOp::Rectangle {
            rect: Rect { left: 52, top: 420 - h as i32, right: 98, bottom: 448 },
            pen: hidden(),
            fill: RED,
        });
    }
    assert(final(ops)@ =~= old(ops)@ + vessel_ops(*t));
}

/// Appends the drawing steps of the scale, top down.
pub fn push_scale(ops: &mut Vec<DrawOp>)
    ensures
        final(ops)@ == old(ops)@ + scale_ops(TICK_COUNT as int),
{
    let ghost start = ops@;
    let mut i: i32 = 0;
    while i < TICK_COUNT as i32
        invariant
            0 <= i <= TICK_COUNT,
            ops@ == start + scale_ops(i as int),
        decreases TICK_COUNT - i,
    {
        let y = 120 + i * 10;
        if i % 10 == 0 {
            ops.push(DrawOp::Line { x1: 100, y1: y, x2: 145, y2: y, pen: fine() });
            ops.push(DrawOp::Line { x1: 100, y1: y + 1, x2: 145, y2: y + 1, pen: fine() });
            ops.push(DrawOp::Text {
                caption: Caption::Degrees((21 - i / 10) as i64),
                rect: Rect { left: 155, top: y - 6, right: 400, bottom: y + 300 },
            });
        } else if i % 5 == 0 {
            ops.push(DrawOp::Line { x1: 100, y1: y, x2: 135, y2: y, pen: accent() });
        } else {
            ops.push(DrawOp::Line { x1: 100, y1: y, x2: 125, y2: y, pen: fine() });
        }
        assert(ops@ =~= start + scale_ops(i as int) + tick_ops(i as int));
        i = i + 1;
    }
}

/// Every drawing step of a full repaint for temperature `t`, in order.
pub fn paint(t: &Temperature) -> (r: Vec<DrawOp>)
    ensures
        r@ == scene(*t),
{
    let mut ops: Vec<DrawOp> = Vec::new();
    ops.push(DrawOp::Text { caption: Caption::Title, rect: Rect { left: 30, top: 50, right: 300, bottom: 100 } });
    push_vessel(&mut ops, t);
    push_scale(&mut ops);
    ops.push(DrawOp::Text { caption: Caption::Prompt, rect: Rect { left: 30, top: 480, right: 300, bottom: 580 } });
    let hint = if t.in_range() { Caption::Blank } else { Caption::RangeHint };
    ops.push(DrawOp::Text { caption: hint, rect: Rect { left: 250, top: 520, right: 600, bottom: 580 } });
    assert(ops@ =~= scene(*t));
    ops
}

} // verus!
