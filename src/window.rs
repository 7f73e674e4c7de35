use vstd::prelude::*;
use crate::reading::{reading_of, temperature_text, Temperature, LOW_CENTI};
use crate::scene::{paint, scene, DrawOp};

verus! {

/// The kinds of window event the thermometer tells apart.
#[derive(Clone, Copy, Debug, PartialEq, Eq, Structural)]
pub enum Event {
    /// The window is being created.
    Create,
    /// The client area must be repainted.
    Paint,
    /// A child control reported activity.
    Command,
    /// The window is being destroyed.
    Destroy,
    /// Anything else.
    Other,
}

/// What the window layer does in answer to an event.
#[derive(Debug)]
pub enum Action {
    /// Create the input field, showing `text`.
    CreateInput { text: String },
    /// Draw `ops` in order and end the repaint.
    Paint { ops: Vec<DrawOp> },
    /// Read the whole text of the input field and hand it to `on_input`.
    ReadInput,
    /// Invalidate and erase the client area so that it is repainted.
    Redraw,
    /// End the message loop; the process exits with `exit_code`.
    Quit { exit_code: i32 },
    /// Leave the event to the platform's default handling.
    PassOn,
}

/// State of the thermometer window.
pub struct Thermometer {
    pub temperature: Temperature,
}

impl Thermometer {
    /// The state the window opens with: 18 degrees.
    pub fn new() -> (r: Thermometer)
        ensures
            r.temperature == (Temperature { negative: false, centi: LOW_CENTI, exact: true }),
    {
        Thermometer { temperature: Temperature::initial() }
    }

    /// The answer to `event`. The state does not change.
    pub fn handle(&self, event: Event) -> (r: Action)
        ensures
            match event {
                Event::Create => r matches Action::CreateInput { text } && text@ == temperature_text(
                    self.temperature,
                ),
                Event::Paint => r matches Action::Paint { ops } && ops@ == scene(self.temperature),
                Event::Command => r is ReadInput,
                Event::Destroy => r matches Action::Quit { exit_code } && exit_code == 0,
                Event::Other => r is PassOn,
            },
    {
        match event {
            Event::Create => Action::CreateInput { text: self.temperature.text() },
            Event::Paint => Action::Paint { ops: paint(&self.temperature) },
            Event::Command => Action::ReadInput,
            Event::Destroy => Action::Quit { exit_code: 0 },
            Event::Other => Action::PassOn,
        }
    }

    /// Takes the text of the input field as the new temperature (zero where
    /// it is no number) and asks for a repaint.
    pub fn on_input(&mut self, text: &str) -> (r: Action)
        ensures
            final(self).temperature == reading_of(text@),
            r is Redraw,
    {
        self.temperature = Temperature::parse(text);
        Action::Redraw
    }
}

} // verus!
