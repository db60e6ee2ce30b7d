//! What the embedding program allows, and the account kept of one payload.

use vstd::prelude::*;

use crate::text::{decimal_u64, join, join4};
use crate::MAX_PROXY_DEPTH;

verus! {

/// Embedder specific configuration data
#[derive(Clone, Copy, Debug, PartialEq, Eq, Structural)]
pub struct EmbedderData {
    /// Heap limit
    pub heap_limit: usize,
    /// Maximum number of bytes allowed for the payload
    pub max_payload_size: Option<usize>,
}

impl EmbedderData {
    /// Whether a payload of so many bytes is allowed.
    pub open spec fn allows(self, size: nat) -> bool {
        self.max_payload_size matches Some(max) ==> size <= max
    }

    /// The text of the refusal of a payload of so many bytes.
    pub open spec fn refusal(self, size: nat) -> Seq<char> {
        "Payload size "@ + crate::text::decimal(size) + " exceeds maximum allowed size of "@
            + crate::text::decimal(self.max_payload_size->0 as nat) + " bytes"@
    }

    /// Checks one payload of `size` bytes against the limit.
    pub fn check_payload(&self, size: usize) -> (r: Result<(), String>)
        ensures
            r is Ok <==> self.allows(size as nat),
            r matches Err(e) ==> e@ == self.refusal(size as nat),
    {
        match self.max_payload_size {
            Some(max) => {
                if size > max {
                    let size_text = decimal_u64(size as u64);
                    let max_text = decimal_u64(max as u64);
                    let head = join4(
                        "Payload size ",
                        &size_text,
                        " exceeds maximum allowed size of ",
                        &max_text,
                    );
                    Err(join(&head, " bytes"))
                } else {
                    Ok(())
                }
            },
            None => Ok(()),
        }
    }

    /// The heap limit that is applied: never below `least`.
    pub fn effective_heap_limit(&self, least: usize) -> (r: usize)
        ensures
            r == if self.heap_limit >= least {
                self.heap_limit
            } else {
                least
            },
    {
        if self.heap_limit >= least {
            self.heap_limit
        } else {
            least
        }
    }
}

/// The account of one payload: how much of it has been converted so far, and how deep the
/// conversion has come.
#[derive(Clone, Copy, Debug, PartialEq, Eq, Structural)]
pub struct EmbedderDataContext {
    pub ed: EmbedderData,
    /// How many containers stand around what is converted with this context.
    pub depth: usize,
    /// What has been charged to this context.
    pub size: usize,
}

/// A sum that stops at the largest `usize`.
pub open spec fn grown(size: usize, n: usize) -> usize {
    if size + n > usize::MAX {
        usize::MAX
    } else {
        (size + n) as usize
    }
}

/// A number, or the largest `usize` where it is larger.
pub open spec fn capped(n: nat) -> usize {
    if n > usize::MAX {
        usize::MAX
    } else {
        n as usize
    }
}

/// The text of the refusal to nest any deeper.
pub open spec fn too_deep() -> Seq<char> {
    "Maximum proxy depth exceeded"@
}

impl EmbedderDataContext {
    /// The context after a charge of `n`.
    pub open spec fn charged(self, n: usize) -> EmbedderDataContext {
        EmbedderDataContext { size: grown(self.size, n), ..self }
    }

    /// Whether a charge of `n` stays within the limit.
    pub open spec fn affords(self, n: usize) -> bool {
        self.ed.allows(grown(self.size, n) as nat)
    }

    /// The text of the refusal of a charge of `n`.
    pub open spec fn overdrawn(self, n: usize, what: Seq<char>) -> Seq<char> {
        what + ": "@ + self.ed.refusal(grown(self.size, n) as nat)
    }

    /// The context after a charge of `n` for `what`, or the text of its refusal.
    pub open spec fn after(self, n: usize, what: Seq<char>) -> Result<
        EmbedderDataContext,
        Seq<char>,
    > {
        if self.affords(n) {
            Ok(self.charged(n))
        } else {
            Err(self.overdrawn(n, what))
        }
    }

    /// The context after charges of `n` in all.
    pub open spec fn plus(self, n: nat) -> EmbedderDataContext {
        EmbedderDataContext { size: capped(self.size as nat + n), ..self }
    }

    /// Whether charges of `n` in all stay within the limit.
    pub open spec fn covers(self, n: nat) -> bool {
        self.ed.allows(capped(self.size as nat + n) as nat)
    }

    /// A fresh account at the same depth.
    pub open spec fn sibling(self) -> EmbedderDataContext {
        EmbedderDataContext { size: 0, ..self }
    }

    /// A fresh account one container further in.
    pub open spec fn child(self) -> EmbedderDataContext {
        EmbedderDataContext { size: 0, depth: (self.depth + 1) as usize, ..self }
    }

    /// Starts the account of a payload.
    pub fn new(ed: EmbedderData) -> (r: Self)
        ensures
            r.ed == ed,
            r.depth == 0,
            r.size == 0,
    {
        EmbedderDataContext { ed, depth: 0, size: 0 }
    }

    /// Charges `n` for `what`. A charge that goes over the limit is refused and changes nothing.
    pub fn add(&mut self, n: usize, what: &str) -> (r: Result<(), String>)
        ensures
            r is Ok <==> old(self).affords(n),
            r is Ok ==> *final(self) == old(self).charged(n),
            r matches Err(e) ==> *final(self) == *old(self) && e@ == old(self).overdrawn(n, what@),
    {
        let total = self.size.saturating_add(n);
        match self.ed.check_payload(total) {
            Ok(()) => {
                self.size = total;
                Ok(())
            },
            Err(e) => {
                let head = join(what, ": ");
                Err(join(&head, &e))
            },
        }
    }

    /// A context for the contents of a container, one level further in.
    pub fn nest(&self) -> (r: Result<Self, String>)
        ensures
            r is Ok <==> self.depth < MAX_PROXY_DEPTH,
            r matches Ok(c) ==> c == self.child(),
            r matches Err(e) ==> e@ == too_deep(),
    {
        if self.depth >= MAX_PROXY_DEPTH {
            Err("Maximum proxy depth exceeded".to_owned())
        } else {
            Ok(EmbedderDataContext { ed: self.ed, depth: self.depth + 1, size: 0 })
        }
    }

    /// A context for another attempt at the same level.
    pub fn nest_in_depth(&self) -> (r: Self)
        ensures
            r == self.sibling(),
    {
        EmbedderDataContext { ed: self.ed, depth: self.depth, size: 0 }
    }

    /// Takes over what was charged to a nested context.
    pub fn merge(&mut self, inner: EmbedderDataContext) -> (r: Result<(), String>)
        ensures
            r is Ok <==> old(self).affords(inner.size),
            r is Ok ==> *final(self) == old(self).charged(inner.size),
            r matches Err(e) ==> *final(self) == *old(self) && e@ == old(self).overdrawn(
                inner.size,
                "nested values"@,
            ),
    {
        self.add(inner.size, "nested values")
    }
}

} // verus!
