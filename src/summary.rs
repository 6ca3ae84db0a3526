use vstd::prelude::*;
use vstd::string::StringExecFns;

verus! {

/// Content that can be shown as a one-line summary.
pub trait Summary {
    /// The text of the summary.
    spec fn summary_text(&self) -> Seq<char>;

    fn summarize(&self) -> (r: String)
        ensures
            r@ == self.summary_text(),
    ;
}

pub struct NewsArticle {
    pub headline: String,
    pub location: String,
    pub author: String,
    pub content: String,
}

pub struct Tweet {
    pub username: String,
    pub content: String,
    pub reply: bool,
    pub retweet: bool,
}

impl Summary for NewsArticle {
    /// `headline, by author (location)`.
    open spec fn summary_text(&self) -> Seq<char> {
        self.headline@ + ", by "@ + self.author@ + " ("@ + self.location@ + ")"@
    }

    fn summarize(&self) -> (r: String) {
        let mut r = String::from_str(self.headline.as_str());
        r.append(", by ");
        r.append(self.author.as_str());
        r.append(" (");
        r.append(self.location.as_str());
        r.append(")");
        r
    }
}

impl Summary for Tweet {
    /// `username: content`.
    open spec fn summary_text(&self) -> Seq<char> {
        self.username@ + ": "@ + self.content@
    }

    fn summarize(&self) -> (r: String) {
        let mut r = String::from_str(self.username.as_str());
        r.append(": ");
        r.append(self.content.as_str());
        r
    }
}

/// A tweet, handed out as something that can be summarized.
pub fn returns_summarizable() -> (r: impl Summary)
    ensures
        r.summary_text() == "horse_ebooks: of course, as you probably already know, people"@,
{
    let t = Tweet {
        username: String::from_str("horse_ebooks"),
        content: String::from_str("of course, as you probably already know, people"),
        reply: false,
        retweet: false,
    };
    proof {
        reveal_strlit("horse_ebooks");
        reveal_strlit(": ");
        reveal_strlit("of course, as you probably already know, people");
        reveal_strlit("horse_ebooks: of course, as you probably already know, people");
        assert(t.summary_text() =~= "horse_ebooks: of course, as you probably already know, people"@);
    }
    t
}

} // verus!
