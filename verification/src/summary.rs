//! Summaries of publishable items: every item can name its author, and
//! by default a summary just points at the author; an item may render a
//! fuller summary of its own.

use vstd::prelude::*;

verus! {

use vstd::string::StringExecFns;

/// Something that can be summarized.
pub trait Summary {
    fn summarize_author(&self) -> String;

    fn summarize(&self) -> String {
        let author = self.summarize_author();
        let mut s = String::from_str("(Read more from ");
        s.append(author.as_str());
        s.append("...)");
        s
    }
}

pub struct NewsArticle {
    pub headline: String,
    pub location: String,
    pub author: String,
    pub content: String,
}

pub struct Tweet {
    pub username: String,
    pub content: String,
    pub reply: bool,
    pub retweet: bool,
}

impl Summary for NewsArticle {
    fn summarize_author(&self) -> String {
        let mut s = String::from_str(">>>");
        s.append(self.author.as_str());
        s
    }

    fn summarize(&self) -> String {
        let mut s = self.headline.clone();
        s.append(", by ");
        s.append(self.author.as_str());
        s.append(" (");
        s.append(self.location.as_str());
        s.append(")");
        s
    }
}

impl Summary for Tweet {
    fn summarize_author(&self) -> String {
        let mut s = String::from_str("@");
        s.append(self.username.as_str());
        s
    }
}

} // verus!
