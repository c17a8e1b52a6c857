//! The commands the user interface calls: the part of each that decides and computes.

pub mod audio;
pub mod dedup;
pub mod ocr;
pub mod rename;
pub mod video;

use vstd::prelude::*;

verus! {

/// The text of the health-check greeting for `name`.
pub open spec fn greeting(name: Seq<char>) -> Seq<char> {
    "来自 Rust 后端的问候:你好,"@ + name + "!FileToolkit 已就绪。"@
}

/// Answers the health-check command, which shows that the interface reaches the backend.
pub fn greet(name: &str) -> (r: String)
    ensures
        r@ == greeting(name@),
{
    let mut s = String::from_str("来自 Rust 后端的问候:你好,");
    s.append(name);
    s.append("!FileToolkit 已就绪。");
    s
}

/// The greeting names the caller between its fixed opening and closing.
pub proof fn lemma_greeting_names_caller(name: Seq<char>)
    ensures
        greeting(name) == "来自 Rust 后端的问候:你好,"@ + name + "!FileToolkit 已就绪。"@,
{
}

} // verus!
