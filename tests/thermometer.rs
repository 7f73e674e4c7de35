use thermometer::counter::{Counter, CounterButton};
use thermometer::decimal::int_string;
use thermometer::reading::Temperature;
use thermometer::scene::{paint, Caption, DrawOp, PenStyle, Rect};
use thermometer::window::{Action, Event, Thermometer};

fn fill_rect(ops: &[DrawOp]) -> Option<Rect> {
    let mut found = None;
    for op in ops {
        if let DrawOp::Rectangle { rect, pen, fill } = op {
            if pen.style == PenStyle::Invisible && *fill == 0x0000ff {
                found = Some(*rect);
            }
        }
    }
    found
}

fn hint_text(ops: &[DrawOp]) -> String {
    match ops.last() {
        Some(DrawOp::Text { caption, .. }) => caption.text(),
        _ => panic!("the last step is not a text"),
    }
}

fn labels(ops: &[DrawOp]) -> Vec<String> {
    let mut out = Vec::new();
    for op in ops {
        if let DrawOp::Text { caption: Caption::Degrees(d), .. } = op {
            out.push(Caption::Degrees(*d).text());
        }
    }
    out
}

#[test]
fn counter_follows_presses() {
    let mut c = Counter::new();
    assert_eq!(c.text(), "1");
    assert_eq!(c.press(CounterButton::Increase), "2");
    assert_eq!(c.press(CounterButton::Increase), "3");
    assert_eq!(c.press(CounterButton::Decrease), "2");
    for _ in 0..5 {
        c.press(CounterButton::Decrease);
    }
    assert_eq!(c.count, 1 + 2 - 6);
    assert_eq!(c.text(), "-3");
}

#[test]
fn counter_after_presses_any_order() {
    let presses = vec![CounterButton::Decrease, CounterButton::Increase, CounterButton::Decrease, CounterButton::Decrease, CounterButton::Increase, CounterButton::Increase, CounterButton::Increase];
    let c = Counter::after_presses(&presses);
    assert_eq!(c.count, 1 + 4 - 3);
    assert_eq!(c.text(), "2");
    assert_eq!(Counter::after_presses(&vec![]).count, 1);
    assert_eq!(Counter::after_presses(&vec![CounterButton::Decrease, CounterButton::Decrease, CounterButton::Decrease]).text(), "-2");
}

#[test]
fn counter_large_values() {
    let mut c = Counter { count: 1234567 };
    assert_eq!(c.press(CounterButton::Increase), "1234568");
    assert_eq!(int_string(i64::MIN), "-9223372036854775808");
    assert_eq!(int_string(0), "0");
}

#[test]
fn input_nineteen_and_a_half_fills_150_units() {
    let mut t = Thermometer::new();
    assert!(matches!(t.on_input("19.5"), Action::Redraw));
    assert_eq!(t.temperature, Temperature { negative: false, centi: 1950, exact: true });
    assert!(t.temperature.in_range());
    assert_eq!(t.temperature.fill_height(), 150);
    let ops = paint(&t.temperature);
    let r = fill_rect(&ops).expect("filled part");
    assert_eq!(r, Rect { left: 52, top: 450 - 30 - 150, right: 98, bottom: 448 });
    assert_eq!(hint_text(&ops), " ".repeat(256));
}

#[test]
fn input_out_of_range_shows_hint() {
    let mut t = Thermometer::new();
    t.on_input("25");
    assert_eq!(t.temperature, Temperature { negative: false, centi: 2500, exact: true });
    assert!(!t.temperature.in_range());
    let ops = paint(&t.temperature);
    assert_eq!(fill_rect(&ops), None);
    assert_eq!(hint_text(&ops), "Please enter a number from 18.0 to 21.0");
}

#[test]
fn input_not_a_number_gives_zero() {
    let mut t = Thermometer::new();
    t.on_input("abc");
    assert_eq!(t.temperature, Temperature::zero());
    assert_eq!(t.temperature.text(), "0");
    let ops = paint(&t.temperature);
    assert_eq!(fill_rect(&ops), None);
    assert_eq!(hint_text(&ops), "Please enter a number from 18.0 to 21.0");
}

#[test]
fn scale_labels_count_down() {
    let ops = paint(&Temperature::initial());
    assert_eq!(labels(&ops), vec!["21.0", "20.0", "19.0", "18.0"]);
}

#[test]
fn scale_layout() {
    let ops = paint(&Temperature::parse("30"));
    // title, outline, 31 ticks (four of them with a second line and a label), prompt, hint
    assert_eq!(ops.len(), 1 + 1 + 31 + 4 * 2 + 2);
    match ops[2] {
        DrawOp::Line { x1, y1, x2, y2, pen } => {
            assert_eq!((x1, y1, x2, y2), (100, 120, 145, 120));
            assert_eq!((pen.style, pen.width, pen.color), (PenStyle::Solid, 1, 0));
        }
        _ => panic!("not a line"),
    }
    match ops[5] {
        DrawOp::Line { x1, y1, x2, y2, pen } => {
            assert_eq!((x1, y1, x2, y2), (100, 130, 125, 130));
            assert_eq!((pen.width, pen.color), (1, 0));
        }
        _ => panic!("not a line"),
    }
    match ops[9] {
        DrawOp::Line { x1, y1, x2, y2, pen } => {
            assert_eq!((x1, y1, x2, y2), (100, 170, 135, 170));
            assert_eq!(pen.color, 0x0000ff);
        }
        _ => panic!("not a line"),
    }
    match ops[4] {
        DrawOp::Text { caption, rect } => {
            assert_eq!(caption, Caption::Degrees(21));
            assert_eq!(rect, Rect { left: 155, top: 114, right: 400, bottom: 420 });
        }
        _ => panic!("not a text"),
    }
}

#[test]
fn destroy_quits_with_zero() {
    let t = Thermometer::new();
    assert!(matches!(t.handle(Event::Destroy), Action::Quit { exit_code: 0 }));
    assert!(matches!(t.handle(Event::Command), Action::ReadInput));
    assert!(matches!(t.handle(Event::Other), Action::PassOn));
}

#[test]
fn create_shows_initial_text() {
    let t = Thermometer::new();
    match t.handle(Event::Create) {
        Action::CreateInput { text } => assert_eq!(text, "18"),
        _ => panic!("expected the input field"),
    }
    match t.handle(Event::Paint) {
        Action::Paint { ops } => {
            assert_eq!(ops, paint(&t.temperature));
            assert_eq!(fill_rect(&ops), Some(Rect { left: 52, top: 420, right: 98, bottom: 448 }));
        }
        _ => panic!("expected a repaint"),
    }
}

#[test]
fn range_edges() {
    assert!(Temperature::parse("18").in_range());
    assert!(Temperature::parse("21").in_range());
    assert!(Temperature::parse("21.000").in_range());
    assert!(!Temperature::parse("21.001").in_range());
    assert!(!Temperature::parse("17.999").in_range());
    assert!(Temperature::parse("18.0001").in_range());
    assert_eq!(Temperature::parse("18.0001").fill_height(), 0);
    assert_eq!(Temperature::parse("20.999").fill_height(), 299);
    assert_eq!(Temperature::parse("21").fill_height(), 300);
    assert!(!Temperature::parse("-19").in_range());
    assert!(Temperature::parse("+19.5").in_range());
}

#[test]
fn number_forms() {
    assert_eq!(Temperature::parse(".5"), Temperature { negative: false, centi: 50, exact: true });
    assert_eq!(Temperature::parse("5."), Temperature { negative: false, centi: 500, exact: true });
    assert_eq!(Temperature::parse("-0.25"), Temperature { negative: true, centi: 25, exact: true });
    assert_eq!(Temperature::parse(""), Temperature::zero());
    assert_eq!(Temperature::parse("."), Temperature::zero());
    assert_eq!(Temperature::parse("-"), Temperature::zero());
    assert_eq!(Temperature::parse("1.2.3"), Temperature::zero());
    assert_eq!(Temperature::parse(" 19"), Temperature::zero());
    assert_eq!(Temperature::parse("19a"), Temperature::zero());
    assert_eq!(
        Temperature::parse("99999999999999999999"),
        Temperature { negative: false, centi: 100000000000000, exact: true }
    );
}

#[test]
fn temperature_texts() {
    assert_eq!(Temperature::initial().text(), "18");
    assert_eq!(Temperature::parse("19.5").text(), "19.5");
    assert_eq!(Temperature::parse("18.05").text(), "18.05");
    assert_eq!(Temperature::parse("-20.10").text(), "-20.1");
    assert_eq!(Temperature::parse("19.501").text(), "19.501");
    assert_eq!(Temperature::parse("21.0049").text(), "21.001");
    assert_eq!(Temperature::parse("-0.0001").text(), "-0.001");
}

#[test]
fn field_text_reads_back() {
    for input in ["18", "19.5", "21.001", "21.0049", "-0.0001", "17.999", "20.25", "0", "abc", "1e-9"] {
        let t = Temperature::parse(input);
        assert_eq!(Temperature::parse(&t.text()), t);
    }
    assert!(!Temperature::parse(&Temperature::parse("21.001").text()).in_range());
}

#[test]
fn caption_texts() {
    assert_eq!(Caption::Title.text(), "Temperature \u{b0}C");
    assert_eq!(Caption::Prompt.text(), "Enter a value to be displayed");
    assert_eq!(Caption::Blank.text().len(), 256);
    assert_eq!(Caption::Degrees(-3).text(), "-3.0");
}

#[test]
fn exponent_forms() {
    assert_eq!(Temperature::parse("1.95e1"), Temperature { negative: false, centi: 1950, exact: true });
    assert!(Temperature::parse("1.95e1").in_range());
    assert_eq!(Temperature::parse("195E-1"), Temperature { negative: false, centi: 1950, exact: true });
    assert_eq!(Temperature::parse("2e+1"), Temperature { negative: false, centi: 2000, exact: true });
    assert_eq!(Temperature::parse("1.5e-3"), Temperature { negative: false, centi: 0, exact: false });
    assert_eq!(Temperature::parse("-1e-999"), Temperature { negative: true, centi: 0, exact: false });
    assert_eq!(
        Temperature::parse("1e400000"),
        Temperature { negative: false, centi: 100000000000000, exact: true }
    );
    assert_eq!(Temperature::parse("0e99999"), Temperature { negative: false, centi: 0, exact: true });
    assert_eq!(Temperature::parse("1e"), Temperature::zero());
    assert_eq!(Temperature::parse("1e+"), Temperature::zero());
    assert_eq!(Temperature::parse("e5"), Temperature::zero());
    assert_eq!(Temperature::parse(".e1"), Temperature::zero());
    assert_eq!(Temperature::parse("1e1.5"), Temperature::zero());
}
