use rust_concepts::generics::{largest_char, largest_i32, MultiPoint, Point};
use rust_concepts::lifetimes::longest;
use rust_concepts::match_control_flow::{value_in_cents, Coin};
use rust_concepts::object_oriented::{self, Button, Draw, Screen};
use rust_concepts::references_borrowing::{calculate_length, change};
use rust_concepts::slice::{first_word, first_word_slice};
use rust_concepts::smart_pointers::MyBox;
use rust_concepts::structs::build_user;
use rust_concepts::summary::{returns_summarizable, Summary};
use std::cell::Cell;
use std::rc::Rc;

#[test]
fn largest_number() {
    assert_eq!(largest_i32(&[34, 50, 25, 100, 65]), 100);
    assert_eq!(largest_i32(&[-3]), -3);
    assert_eq!(largest_i32(&[-7, -2, -9]), -2);
}

#[test]
fn largest_character() {
    assert_eq!(largest_char(&['y', 'm', 'a', 'q']), 'y');
    assert_eq!(largest_char(&['a', 'z', 'b']), 'z');
}

#[test]
fn point_accessor_and_mixup() {
    let p = Point { x: 5, y: 10 };
    assert_eq!(*p.x(), 5);
    let p1 = MultiPoint { x: 5, y: 10 };
    let p2 = MultiPoint { x: "Hello", y: 'c' };
    let p3 = p1.mixup(p2);
    assert_eq!(p3.x, 5);
    assert_eq!(p3.y, 'c');
}

#[test]
fn longest_string() {
    assert_eq!(longest("abcd", "xyz"), "abcd");
    assert_eq!(longest("ab", "xyz"), "xyz");
    assert_eq!(longest("abc", "xyz"), "xyz");
}

#[test]
fn coin_values() {
    assert_eq!(value_in_cents(Coin::Penny), 1);
    assert_eq!(value_in_cents(Coin::Nickel), 5);
    assert_eq!(value_in_cents(Coin::Dime), 10);
    assert_eq!(value_in_cents(Coin::Quarter), 25);
}

#[test]
fn first_word_end() {
    assert_eq!(first_word(&String::from("hello world")), 5);
    assert_eq!(first_word(&String::from("heelo")), 5);
    assert_eq!(first_word(&String::from("")), 0);
    assert_eq!(first_word(&String::from(" lead")), 0);
}

#[test]
fn first_word_text() {
    assert_eq!(first_word_slice(&String::from("hello world")), "hello");
    assert_eq!(first_word_slice(&String::from("héllo wörld")), "héllo");
    assert_eq!(first_word_slice(&String::from("alone")), "alone");
}

#[test]
fn length_and_change() {
    assert_eq!(calculate_length(&String::from("hello")), 5);
    let mut s = String::from("hello");
    change(&mut s);
    assert_eq!(s, "hello, world");
}

#[test]
fn new_user() {
    let u = build_user(String::from("a@example.com"), String::from("someone"));
    assert_eq!(u.email, "a@example.com");
    assert_eq!(u.username, "someone");
    assert!(u.active);
    assert_eq!(u.sign_in_count, 1);
}

#[test]
fn my_box_derefs() {
    let y = MyBox::new(5);
    assert_eq!(*y, 5);
    let m = MyBox::new(String::from("Rust"));
    assert_eq!(m.len(), 4);
}

#[test]
fn summarizable_tweet() {
    assert_eq!(
        returns_summarizable().summarize(),
        "horse_ebooks: of course, as you probably already know, people"
    );
}

struct Counter {
    hits: Rc<Cell<u32>>,
}

impl Draw for Counter {
    fn draw(&self) {
        self.hits.set(self.hits.get() + 1);
    }
}

#[test]
fn screen_draws_every_component() {
    let hits = Rc::new(Cell::new(0));
    let screen = Screen {
        components: vec![
            Box::new(Counter { hits: hits.clone() }),
            Box::new(Button { width: 50, height: 10, label: String::from("OK") }),
            Box::new(Counter { hits: hits.clone() }),
        ],
    };
    screen.run();
    assert_eq!(hits.get(), 2);
    object_oriented::run();
}
