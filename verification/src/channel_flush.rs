//! Texts that flush the logs of a channel without naming it.
//!
//! The parser takes the name behind `FLUSH RELAY LOGS FOR CHANNEL` for granted and breaks
//! off where there is none, so such texts are told by their tokens beforehand.

use vstd::prelude::*;
use crate::text::{lowered, str_eq, to_ascii_lowercase};

verus! {

/// A token of a text.
#[derive(Debug)]
pub enum TokenHead {
    /// A word, in quotes or not.
    Word { text: String, quoted: bool },
    /// A text in single quotes.
    SingleQuoted,
    /// A text in double quotes.
    DoubleQuoted,
    /// A blank or a comment.
    Space,
    Period,
    SemiColon,
    Other,
}

/// Whether a token is a keyword, in any case.
pub open spec fn is_keyword(head: TokenHead, keyword: Seq<char>) -> bool {
    head matches TokenHead::Word { text, quoted } && !quoted && lowered(text@) == keyword
}

/// Whether a token can be a part of a name.
pub open spec fn is_name_part(head: TokenHead) -> bool {
    head is Word || head is SingleQuoted || head is DoubleQuoted
}

/// The tokens that are neither blanks nor comments.
pub open spec fn significant(heads: Seq<TokenHead>) -> Seq<TokenHead>
    decreases heads.len(),
{
    if heads.len() == 0 {
        Seq::empty()
    } else if heads.last() is Space {
        significant(heads.drop_last())
    } else {
        significant(heads.drop_last()).push(heads.last())
    }
}

/// Whether a name stands at a place: a part, or parts with periods between them.
pub open spec fn name_at(heads: Seq<TokenHead>, at: int) -> bool
    decreases heads.len() - at,
{
    &&& 0 <= at < heads.len()
    &&& is_name_part(heads[at])
    &&& at + 1 < heads.len() && heads[at + 1] is Period ==> name_at(heads, at + 2)
}

/// Whether a keyword stands at a place.
pub open spec fn keyword_at(heads: Seq<TokenHead>, at: int, keyword: Seq<char>) -> bool {
    0 <= at < heads.len() && is_keyword(heads[at], keyword)
}

/// Where `RELAY` would stand behind a `FLUSH`: it may be told first where to flush.
pub open spec fn behind_location(heads: Seq<TokenHead>, at: int) -> int {
    if keyword_at(heads, at + 1, "no_write_to_binlog"@) || keyword_at(heads, at + 1, "local"@) {
        at + 2
    } else {
        at + 1
    }
}

/// Whether the tokens from a place on flush the logs of a channel that they do not name.
pub open spec fn flushes_unnamed(heads: Seq<TokenHead>, at: int) -> bool {
    let from = behind_location(heads, at);
    &&& keyword_at(heads, at, "flush"@)
    &&& keyword_at(heads, from, "relay"@)
    &&& keyword_at(heads, from + 1, "logs"@)
    &&& keyword_at(heads, from + 2, "for"@)
    &&& keyword_at(heads, from + 3, "channel"@)
    &&& !name_at(heads, from + 4)
}

/// Whether a token is a keyword at which statements begin that hold other statements.
pub open spec fn opens_statements(head: TokenHead) -> bool {
    is_keyword(head, "case"@) || is_keyword(head, "if"@) || is_keyword(head, "while"@)
        || is_keyword(head, "create"@) || is_keyword(head, "explain"@) || is_keyword(head, "desc"@)
        || is_keyword(head, "describe"@) || is_keyword(head, "prepare"@)
}

/// Whether one of the first tokens begins statements that hold other statements.
pub open spec fn opened_before(heads: Seq<TokenHead>, at: int) -> bool {
    exists|earlier: int| 0 <= earlier < at && opens_statements(#[trigger] heads[earlier])
}

/// Whether a statement can begin at a place: at the first token, behind a semicolon, or
/// within a statement that holds others.
pub open spec fn may_begin(heads: Seq<TokenHead>, at: int) -> bool {
    at == 0 || heads[at - 1] is SemiColon || opened_before(heads, at)
}

/// Whether tokens hold a statement that flushes the logs of a channel without naming it.
pub open spec fn flushes_unnamed_channel(heads: Seq<TokenHead>) -> bool {
    exists|at: int|
        0 <= at < significant(heads).len() && may_begin(significant(heads), at)
            && #[trigger] flushes_unnamed(significant(heads), at)
}

/// Whether a keyword stands at a place.
fn has_keyword(heads: &Vec<TokenHead>, at: usize, keyword: &str) -> (found: bool)
    ensures
        found == keyword_at(heads@, at as int, keyword@),
{
    if at >= heads.len() {
        return false;
    }
    match &heads[at] {
        TokenHead::Word { text, quoted } => {
            if *quoted {
                return false;
            }
            let lower = to_ascii_lowercase(text.as_str());
            str_eq(lower.as_str(), keyword)
        },
        _ => false,
    }
}

/// Whether a name stands at a place.
fn has_name(heads: &Vec<TokenHead>, at: usize) -> (found: bool)
    ensures
        found == name_at(heads@, at as int),
    decreases heads@.len() - at,
{
    if at >= heads.len() {
        return false;
    }
    let part = match &heads[at] {
        TokenHead::Word { .. } | TokenHead::SingleQuoted | TokenHead::DoubleQuoted => true,
        _ => false,
    };
    if !part {
        return false;
    }
    if heads.len() - at < 2 {
        return true;
    }
    match &heads[at + 1] {
        TokenHead::Period => {
            if heads.len() - at == 2 {
                assert(!name_at(heads@, at + 2));
                false
            } else {
                has_name(heads, at + 2)
            }
        },
        _ => true,
    }
}

/// Whether the tokens from a place on flush the logs of a channel that they do not name.
fn finds_unnamed(heads: &Vec<TokenHead>, at: usize) -> (found: bool)
    requires
        at < heads@.len(),
    ensures
        found == flushes_unnamed(heads@, at as int),
{
    if !has_keyword(heads, at, "flush") || heads.len() - at < 5 {
        return false;
    }
    let from: usize = if has_keyword(heads, at + 1, "no_write_to_binlog") || has_keyword(
        heads,
        at + 1,
        "local",
    ) {
        at + 2
    } else {
        at + 1
    };
    if heads.len() - from < 4 {
        return false;
    }
    if !has_keyword(heads, from, "relay") || !has_keyword(heads, from + 1, "logs") || !has_keyword(
        heads,
        from + 2,
        "for",
    ) || !has_keyword(heads, from + 3, "channel") {
        return false;
    }
    if heads.len() - from == 4 {
        return true;
    }
    !has_name(heads, from + 4)
}

/// Whether the token at a place begins statements that hold others.
fn opens(heads: &Vec<TokenHead>, at: usize) -> (found: bool)
    requires
        at < heads@.len(),
    ensures
        found == opens_statements(heads@[at as int]),
{
    has_keyword(heads, at, "case") || has_keyword(heads, at, "if") || has_keyword(
        heads,
        at,
        "while",
    ) || has_keyword(heads, at, "create") || has_keyword(heads, at, "explain") || has_keyword(
        heads,
        at,
        "desc",
    ) || has_keyword(heads, at, "describe") || has_keyword(heads, at, "prepare")
}

/// The tokens that are neither blanks nor comments.
fn without_spaces(heads: Vec<TokenHead>) -> (kept: Vec<TokenHead>)
    ensures
        kept@ == significant(heads@),
{
    let ghost all = heads@;
    let mut kept: Vec<TokenHead> = Vec::new();
    assert(all.take(0) =~= Seq::empty());
    for head in rest: heads
        invariant
            rest.seq() == all,
            kept@ == significant(all.take(rest.index())),
    {
        proof {
            let count = rest.index();
            assert(head == all[count]);
            assert(all.take(count + 1).drop_last() =~= all.take(count));
            assert(all.take(count + 1).last() == head);
        }
        let space = match &head {
            TokenHead::Space => true,
            _ => false,
        };
        if !space {
            kept.push(head);
        }
    }
    assert(all.take(all.len() as int) =~= all);
    kept
}

/// Whether tokens hold a statement that flushes the logs of a channel without naming it.
pub fn finds_unnamed_channel(heads: Vec<TokenHead>) -> (found: bool)
    ensures
        found == flushes_unnamed_channel(heads@),
{
    let ghost all = significant(heads@);
    let kept = without_spaces(heads);
    let mut opened = false;
    let mut behind_semicolon = true;
    let mut at: usize = 0;
    while at < kept.len()
        invariant
            all == significant(heads@),
            kept@ == all,
            at <= all.len(),
            opened == opened_before(all, at as int),
            behind_semicolon == (at == 0 || all[at - 1] is SemiColon),
            forall|earlier: int|
                0 <= earlier < at && may_begin(all, earlier) ==> !#[trigger] flushes_unnamed(
                    all,
                    earlier,
                ),
        decreases all.len() - at,
    {
        if (opened || behind_semicolon) && finds_unnamed(&kept, at) {
            return true;
        }
        if opens(&kept, at) {
            opened = true;
            assert(opens_statements(all[at as int]));
        }
        behind_semicolon = match &kept[at] {
            TokenHead::SemiColon => true,
            _ => false,
        };
        at += 1;
    }
    false
}

} // verus!
