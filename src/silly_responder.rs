use vstd::prelude::*;
use crate::chance::random_index;

verus! {

/// Answers to messages the bot does not understand.
#[derive(Debug)]
pub struct SillyResponder(Vec<&'static str>);

pub fn make_silly_responses() -> (r: Vec<&'static str>)
    ensures
        r@.len() == 12,
{
    vec![
        "I don't wanna talk with you",
        "Go away",
        "Bug off",
        "Your momma is fat",
        "I don't like you",
        "Why are you bothering me?",
        "I'm not an LLM",
        "I want to be alone",
        "I won't be talking to you",
        "You're fat",
        "I'm not gonna answer",
        "You're ugly",
    ]
}

impl SillyResponder {
    pub closed spec fn responses(self) -> Seq<&'static str> {
        self.0@
    }

    pub fn new() -> (r: SillyResponder)
        ensures
            r.responses().len() == 12,
    {
        SillyResponder(make_silly_responses())
    }

    /// One of the answers, at random.
    pub fn respond(&self) -> (r: &'static str)
        requires
            self.responses().len() > 0,
        ensures
            self.responses().contains(r),
    {
        let k = random_index(self.0.len());
        proof {
            assert(self.0@[k as int] == self.0@[k as int]);
        }
        self.0[k]
    }
}

} // verus!
