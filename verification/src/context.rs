//! The limits that every decode is held to.
use vstd::prelude::*;
use crate::error::DecodeError;

verus! {

/// Default recursion depth limit for decoding nested messages. It matches the
/// limit of the official protobuf implementations.
pub const RECURSION_LIMIT: u32 = 100;

/// Default limit on the unknown fields that one top-level decode materializes.
///
/// An unknown field of two bytes on the wire takes about forty in memory, so a
/// bound on the input alone does not bound what is allocated.
pub const DEFAULT_UNKNOWN_FIELD_LIMIT: usize = 1_000_000;

/// Default element-memory budget of one top-level decode: 32 MiB.
///
/// It bounds what the elements of repeated and map fields take in memory. Only
/// the elements' own footprint counts; the contents of a string or of a bytes
/// field are bounded by the input already.
pub const DEFAULT_ELEMENT_MEMORY_LIMIT: usize = 32 * 1024 * 1024;

/// What is left of the limits of one top-level decode.
///
/// The depth belongs to the nesting level at hand. The two allowances belong to
/// the whole decode: a merge that descends into a nested message hands the
/// allowances down and takes back what is left of them with
/// [`resume`](Self::resume), so every field of the tree draws on the same ones.
///
/// Start a fresh context for each top-level decode. One that is used again goes
/// on from what the decode before it left.
#[derive(Clone, Copy, Debug, PartialEq, Eq, Structural)]
pub struct DecodeContext {
    depth: u32,
    unknown_fields_remaining: usize,
    element_memory_remaining: Option<usize>,
}

impl DecodeContext {
    /// The nesting levels left.
    pub closed spec fn levels(self) -> u32 {
        self.depth
    }

    /// The unknown fields left.
    pub closed spec fn unknown_fields(self) -> usize {
        self.unknown_fields_remaining
    }

    /// The element memory left, or `None` where none is counted.
    pub closed spec fn element_memory(self) -> Option<usize> {
        self.element_memory_remaining
    }

    /// The context with these three limits.
    pub closed spec fn limits(
        levels: u32,
        unknown_fields: usize,
        element_memory: Option<usize>,
    ) -> Self {
        DecodeContext {
            depth: levels,
            unknown_fields_remaining: unknown_fields,
            element_memory_remaining: element_memory,
        }
    }

    /// A context is its three limits, and nothing else.
    pub proof fn law_context_is_its_limits(self)
        ensures
            self == Self::limits(self.levels(), self.unknown_fields(), self.element_memory()),
    {
    }

    /// The limits are what the context was made with.
    pub proof fn lemma_limits_of(levels: u32, unknown_fields: usize, element_memory: Option<usize>)
        ensures
            Self::limits(levels, unknown_fields, element_memory).levels() == levels,
            Self::limits(levels, unknown_fields, element_memory).unknown_fields()
                == unknown_fields,
            Self::limits(levels, unknown_fields, element_memory).element_memory()
                == element_memory,
    {
    }

    /// `self` is what `start` may become at the same nesting level: the depth
    /// is as it was, and the allowances have only been drawn on.
    pub open spec fn spent_from(self, start: Self) -> bool {
        &&& self.levels() == start.levels()
        &&& self.unknown_fields() <= start.unknown_fields()
        &&& match (start.element_memory(), self.element_memory()) {
            (None, None) => true,
            (Some(before), Some(after)) => after <= before,
            _ => false,
        }
    }

    /// A context with `depth` nesting levels, an unknown-field allowance, and
    /// no element-memory budget.
    pub fn new(depth: u32, unknown_field_limit: usize) -> (ctx: Self)
        ensures
            ctx == Self::limits(depth, unknown_field_limit, None),
    {
        DecodeContext {
            depth,
            unknown_fields_remaining: unknown_field_limit,
            element_memory_remaining: None,
        }
    }

    /// Attach an element-memory budget. Without one,
    /// [`register_element_memory`](Self::register_element_memory) charges
    /// nothing.
    pub fn with_element_memory(self, element_memory_limit: usize) -> (ctx: Self)
        ensures
            ctx == Self::limits(self.levels(), self.unknown_fields(), Some(element_memory_limit)),
    {
        DecodeContext {
            depth: self.depth,
            unknown_fields_remaining: self.unknown_fields_remaining,
            element_memory_remaining: Some(element_memory_limit),
        }
    }

    /// The nesting levels left.
    pub fn depth(&self) -> (depth: u32)
        ensures
            depth == self.levels(),
    {
        self.depth
    }

    /// The number of unknown fields that this decode may still materialize.
    pub fn remaining_unknown_fields(&self) -> (n: usize)
        ensures
            n == self.unknown_fields(),
    {
        self.unknown_fields_remaining
    }

    /// The element memory left, or `None` when no budget is attached.
    pub fn remaining_element_memory(&self) -> (n: Option<usize>)
        ensures
            n == self.element_memory(),
    {
        self.element_memory_remaining
    }

    /// `inner` is `self` one nesting level down.
    pub open spec fn descended(self, inner: Self) -> bool {
        &&& self.levels() > 0
        &&& inner.levels() == self.levels() - 1
        &&& inner.unknown_fields() == self.unknown_fields()
        &&& inner.element_memory() == self.element_memory()
    }

    /// Descend one nesting level, or fail where none is left.
    pub fn descend(self) -> (inner: Result<Self, DecodeError>)
        ensures
            match inner {
                Ok(inner) => self.descended(inner),
                Err(e) => self.levels() == 0 && e == DecodeError::RecursionLimitExceeded,
            },
    {
        if self.depth == 0 {
            return Err(DecodeError::RecursionLimitExceeded);
        }
        Ok(
            DecodeContext {
                depth: self.depth - 1,
                unknown_fields_remaining: self.unknown_fields_remaining,
                element_memory_remaining: self.element_memory_remaining,
            },
        )
    }

    /// `outer` is `self` once `inner` has come back from below.
    pub open spec fn resumed(self, inner: Self, outer: Self) -> bool {
        &&& outer.levels() == self.levels()
        &&& outer.unknown_fields() == inner.unknown_fields()
        &&& outer.element_memory() == inner.element_memory()
    }

    /// Take back the allowances that a nested merge left.
    pub fn resume(&mut self, inner: DecodeContext)
        ensures
            old(self).resumed(inner, *final(self)),
    {
        self.unknown_fields_remaining = inner.unknown_fields_remaining;
        self.element_memory_remaining = inner.element_memory_remaining;
    }

    /// Take one slot of the unknown-field allowance. Call it before an unknown
    /// field is materialized.
    pub fn register_unknown_field(&mut self) -> (result: Result<(), DecodeError>)
        ensures
            final(self).levels() == old(self).levels(),
            final(self).element_memory() == old(self).element_memory(),
            match result {
                Ok(()) => old(self).unknown_fields() > 0 && final(self).unknown_fields() == old(
                    self,
                ).unknown_fields() - 1,
                Err(e) => {
                    &&& e == DecodeError::UnknownFieldLimitExceeded
                    &&& old(self).unknown_fields() == 0
                    &&& final(self).unknown_fields() == 0
                },
            },
    {
        if self.unknown_fields_remaining == 0 {
            return Err(DecodeError::UnknownFieldLimitExceeded);
        }
        self.unknown_fields_remaining = self.unknown_fields_remaining - 1;
        Ok(())
    }

    /// Charge `bytes` to the element-memory budget, where one is attached. Call
    /// it before an element of a repeated or map field is materialized.
    pub fn register_element_memory(&mut self, bytes: usize) -> (result: Result<(), DecodeError>)
        ensures
            final(self).levels() == old(self).levels(),
            final(self).unknown_fields() == old(self).unknown_fields(),
            match old(self).element_memory() {
                None => result == Ok::<(), DecodeError>(()) && final(self).element_memory() == None::<
                    usize,
                >,
                Some(left) => if bytes > left {
                    &&& result == Err::<(), DecodeError>(DecodeError::ElementMemoryLimitExceeded)
                    &&& final(self).element_memory() == Some(left)
                } else {
                    &&& result == Ok::<(), DecodeError>(())
                    &&& final(self).element_memory() == Some((left - bytes) as usize)
                },
            },
    {
        match self.element_memory_remaining {
            None => Ok(()),
            Some(left) => {
                if bytes > left {
                    return Err(DecodeError::ElementMemoryLimitExceeded);
                }
                self.element_memory_remaining = Some(left - bytes);
                Ok(())
            },
        }
    }
}

} // verus!
