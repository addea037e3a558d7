//! Helpers for an end-user peer that the relay's rules also pin down:
//! which chat mode the input line is in, the ordered key-derivation
//! context strings, and the deterministic choice of the room-key leader.
use vstd::prelude::*;

use crate::text::{lex_le, str_lex_le};

verus! {

/// What the input line sends when no command is typed.
#[derive(Debug, Clone, Copy, PartialEq, Eq, Structural)]
pub enum ChatInputMode {
    Say,
    Whisper,
}

impl ChatInputMode {
    /// The mode the toggle key switches to.
    pub fn next(self) -> (r: ChatInputMode)
        ensures
            r == match self {
                ChatInputMode::Say => ChatInputMode::Whisper,
                ChatInputMode::Whisper => ChatInputMode::Say,
            },
    {
        match self {
            ChatInputMode::Say => ChatInputMode::Whisper,
            ChatInputMode::Whisper => ChatInputMode::Say,
        }
    }
}

/// The two ids in lexicographic order, so both peers derive the same
/// context.
pub open spec fn spec_ordered_pair(a: Seq<char>, b: Seq<char>) -> (Seq<char>, Seq<char>) {
    if lex_le(a, b) {
        (a, b)
    } else {
        (b, a)
    }
}

/// The whisper key-derivation context both peers agree on.
pub fn whisper_context(a: &str, b: &str) -> (r: String)
    ensures
        ({
            let (lo, hi) = spec_ordered_pair(a@, b@);
            r@ == "whisper:"@ + lo + seq![':'] + hi
        }),
{
    let (lo, hi) = if str_lex_le(a, b) {
        (a, b)
    } else {
        (b, a)
    };
    let mut r = String::from_str("whisper:");
    r.append(lo);
    r.append(":");
    r.append(hi);
    proof {
        reveal_strlit(":");
        assert(":"@ =~= seq![':']);
        let (slo, shi) = spec_ordered_pair(a@, b@);
        assert(r@ =~= "whisper:"@ + slo + seq![':'] + shi);
    }
    r
}

/// The room-key handoff context both peers agree on.
pub fn room_key_context(room_id: &str, a: &str, b: &str) -> (r: String)
    ensures
        ({
            let (lo, hi) = spec_ordered_pair(a@, b@);
            r@ == "room-key:"@ + room_id@ + seq![':'] + lo + seq![':'] + hi
        }),
{
    let (lo, hi) = if str_lex_le(a, b) {
        (a, b)
    } else {
        (b, a)
    };
    let mut r = String::from_str("room-key:");
    r.append(room_id);
    r.append(":");
    r.append(lo);
    r.append(":");
    r.append(hi);
    proof {
        reveal_strlit(":");
        assert(":"@ =~= seq![':']);
        let (slo, shi) = spec_ordered_pair(a@, b@);
        assert(r@ =~= "room-key:"@ + room_id@ + seq![':'] + slo + seq![':'] + shi);
    }
    r
}

/// The peer that generates the room key: the lexicographically smallest
/// user id present (the calling peer includes itself in the list).
pub fn room_leader_id(ids: &Vec<String>) -> (r: Option<String>)
    ensures
        match r {
            Some(leader) => ids@.len() > 0 && (exists|i: int|
                0 <= i < ids@.len() && #[trigger] ids@[i]@ == leader@) && (forall|i: int|
                0 <= i < ids@.len() ==> lex_le(leader@, #[trigger] ids@[i]@)),
            None => ids@.len() == 0,
        },
{
    if ids.len() == 0 {
        return None;
    }
    let mut best = ids[0].clone();
    let mut i: usize = 1;
    proof {
        assert(best@ == ids@[0]@);
        lemma_lex_refl(best@);
    }
    while i < ids.len()
        invariant
            1 <= i <= ids@.len(),
            exists|j: int| 0 <= j < i && #[trigger] ids@[j]@ == best@,
            forall|j: int| 0 <= j < i ==> lex_le(best@, #[trigger] ids@[j]@),
        decreases ids@.len() - i,
    {
        let ghost prev = best@;
        if str_lex_le(ids[i].as_str(), best.as_str()) {
            best = ids[i].clone();
            proof {
                assert forall|j: int| 0 <= j < i + 1 implies lex_le(best@, #[trigger] ids@[j]@) by {
                    if j < i {
                        lemma_lex_trans(best@, prev, ids@[j]@);
                    } else {
                        lemma_lex_refl(best@);
                    }
                }
            }
        } else {
            proof {
                lemma_lex_total(best@, ids@[i as int]@);
            }
        }
        i = i + 1;
    }
    Some(best)
}

/// Distinct characters have distinct scalar values.
proof fn lemma_char_scalar_injective(c: char, d: char)
    ensures
        c as u32 == d as u32 ==> c == d,
{
}

/// Lexicographic order is total: of any two strings one precedes the
/// other.
pub proof fn lemma_lex_total(a: Seq<char>, b: Seq<char>)
    ensures
        lex_le(a, b) || lex_le(b, a),
    decreases a.len(),
{
    if a.len() > 0 && b.len() > 0 {
        if a[0] == b[0] {
            lemma_lex_total(a.skip(1), b.skip(1));
        } else {
            lemma_char_scalar_injective(a[0], b[0]);
        }
    }
}

/// Lexicographic order is transitive.
pub proof fn lemma_lex_trans(a: Seq<char>, b: Seq<char>, c: Seq<char>)
    requires
        lex_le(a, b),
        lex_le(b, c),
    ensures
        lex_le(a, c),
    decreases a.len(),
{
    if a.len() > 0 && b.len() > 0 && c.len() > 0 && a[0] == b[0] && b[0] == c[0] {
        lemma_lex_trans(a.skip(1), b.skip(1), c.skip(1));
    }
}

/// Lexicographic order is reflexive.
pub proof fn lemma_lex_refl(a: Seq<char>)
    ensures
        lex_le(a, a),
    decreases a.len(),
{
    if a.len() > 0 {
        lemma_lex_refl(a.skip(1));
    }
}

} // verus!
