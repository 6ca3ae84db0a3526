use vstd::prelude::*;
use vstd::string::StringExecFns;

verus! {

/// A component that can draw itself.
pub trait Draw {
    fn draw(&self);
}

/// A set of components of any kinds that can draw themselves.
pub struct Screen {
    pub components: Vec<Box<dyn Draw>>,
}

impl Screen {
    /// Draws every component, in order.
    pub fn run(&self) {
        let mut i: usize = 0;
        while i < self.components.len()
            invariant
                0 <= i <= self.components@.len(),
            decreases self.components@.len() - i,
        {
            self.components[i].draw();
            i = i + 1;
        }
    }
}

pub struct Button {
    pub width: u32,
    pub height: u32,
    pub label: String,
}

impl Draw for Button {
    fn draw(&self) {
    }
}

struct SelectBox {
    width: u32,
    height: u32,
    options: Vec<String>,
}

impl Draw for SelectBox {
    fn draw(&self) {
    }
}

/// Builds a screen of a select box and a button and draws it.
pub fn run() {
    let select: Box<dyn Draw> = Box::new(
        SelectBox {
            width: 75,
            height: 10,
            options: vec![String::from_str("Yes"), String::from_str("Maybe"), String::from_str("No")],
        },
    );
    let button: Box<dyn Draw> = Box::new(
        Button { width: 50, height: 10, label: String::from_str("OK") },
    );
    let screen = Screen { components: vec![select, button] };
    screen.run();
}

} // verus!
