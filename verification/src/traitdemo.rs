//! A tweet value as the summarizable example returns it.
use vstd::prelude::*;
use vstd::string::StringExecFns;

verus! {

/// A tweet.
pub struct Tweet {
    pub username: String,
    pub content: String,
    pub reply: bool,
    pub retweet: bool,
}

/// The fixed example tweet.
pub fn returns_summarizable() -> (t: Tweet)
    ensures
        t.username@ == "horse_ebooks"@,
        t.content@ == "of course, as you probably already know, people"@,
        !t.reply,
        !t.retweet,
{
    Tweet {
        username: String::from_str("horse_ebooks"),
        content: String::from_str("of course, as you probably already know, people"),
        reply: false,
        retweet: false,
    }
}

} // verus!
