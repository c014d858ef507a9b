//! W3C trace context propagation.
//!
//! The `traceparent` header carries the identity of a trace through the system:
//! `00-<trace-id>-<parent-id>-<trace-flags>`.

use vstd::prelude::*;
use vstd::string::*;

use crate::text::{
    chars_of, digit_char, hex, hex_number, hex_reads_as_its_number, owned, push_hex,
};

verus! {

/// The value of a hexadecimal digit of either case.
pub open spec fn hex_value(c: char) -> Option<nat> {
    if '0' <= c <= '9' {
        Some((c as nat - 48) as nat)
    } else if 'a' <= c <= 'f' {
        Some((c as nat - 87) as nat)
    } else if 'A' <= c <= 'F' {
        Some((c as nat - 55) as nat)
    } else {
        None
    }
}

/// A text of hexadecimal digits.
pub open spec fn all_hex(s: Seq<char>) -> bool {
    forall|i: int| 0 <= i < s.len() ==> hex_value(#[trigger] s[i]) is Some
}

/// A well-formed `traceparent` header: version `00`, 32 digits of trace ID, 16
/// digits of parent ID and 2 digits of flags, separated by hyphens.
pub open spec fn well_formed(header: Seq<char>) -> bool {
    &&& header.len() == 55
    &&& header[0] == '0' && header[1] == '0'
    &&& header[2] == '-' && header[35] == '-' && header[52] == '-'
    &&& all_hex(header.subrange(3, 35))
    &&& all_hex(header.subrange(36, 52))
    &&& all_hex(header.subrange(53, 55))
}

/// The flags that a well-formed header carries.
pub open spec fn flags_of(header: Seq<char>) -> nat {
    hex_value(header[53])->Some_0 * 16 + hex_value(header[54])->Some_0
}

/// A trace context, parsed from or written to the `traceparent` header.
#[derive(Debug, Clone, PartialEq, Eq)]
pub struct TraceContext {
    /// Identifier shared by all spans of a trace (32 hex digits).
    pub trace_id: String,
    /// Identifier of the calling span (16 hex digits).
    pub parent_id: String,
    /// Flags bitmask. Bit 0 means sampled.
    pub trace_flags: u8,
}

/// The header of a trace context.
pub open spec fn header_of(trace_id: Seq<char>, parent_id: Seq<char>, flags: u8) -> Seq<char> {
    "00-"@ + trace_id + "-"@ + parent_id + "-"@ + hex(flags as nat, 2)
}

impl TraceContext {
    /// The identifiers have the form that headers take.
    pub open spec fn wf(&self) -> bool {
        &&& self.trace_id@.len() == 32 && all_hex(self.trace_id@)
        &&& self.parent_id@.len() == 16 && all_hex(self.parent_id@)
    }

    /// Parse a `traceparent` header. A malformed header gives nothing.
    pub fn parse(header: &str) -> (r: Option<Self>)
        ensures
            match r {
                Some(ctx) => {
                    &&& well_formed(header@)
                    &&& ctx.wf()
                    &&& ctx.trace_id@ == header@.subrange(3, 35)
                    &&& ctx.parent_id@ == header@.subrange(36, 52)
                    &&& ctx.trace_flags == flags_of(header@)
                },
                None => !well_formed(header@),
            },
    {
        let chars = chars_of(header);
        if chars.len() != 55 {
            return None;
        }
        if chars[0] != '0' || chars[1] != '0' || chars[2] != '-' || chars[35] != '-' || chars[52]
            != '-' {
            return None;
        }
        if !hex_digits(&chars, 3, 35) || !hex_digits(&chars, 36, 52) || !hex_digits(
            &chars,
            53,
            55,
        ) {
            return None;
        }
        let ghost flags = header@.subrange(53, 55);
        assert(flags[0] == header@[53] && flags[1] == header@[54]);
        match (digit_value(chars[53]), digit_value(chars[54])) {
            (Some(high), Some(low)) => Some(
                TraceContext {
                    trace_id: owned(header.substring_char(3, 35)),
                    parent_id: owned(header.substring_char(36, 52)),
                    trace_flags: high * 16 + low,
                },
            ),
            _ => None,
        }
    }

    /// Write this trace context as a `traceparent` header.
    pub fn to_header(&self) -> (s: String)
        ensures
            s@ == header_of(self.trace_id@, self.parent_id@, self.trace_flags),
    {
        let mut s = owned("00-");
        s.append(self.trace_id.as_str());
        s.append("-");
        s.append(self.parent_id.as_str());
        s.append("-");
        push_hex(&mut s, self.trace_flags as u128, 2);
        s
    }

    /// Create a sampled trace context whose identifiers are taken from a clock
    /// reading in nanoseconds.
    pub fn new_random(nanos: u128) -> (ctx: Self)
        ensures
            ctx.wf(),
            ctx.trace_id@ == hex(nanos as nat, 32),
            ctx.parent_id@ == hex(nanos as nat, 16),
            ctx.trace_flags == 1,
    {
        let mut trace_id = owned("");
        let mut parent_id = owned("");
        proof {
            reveal_strlit("");
            hex_is_hex(nanos as nat, 32);
            hex_is_hex(nanos as nat, 16);
        }
        push_hex(&mut trace_id, nanos, 32);
        push_hex(&mut parent_id, nanos, 16);
        assert(trace_id@ =~= hex(nanos as nat, 32));
        assert(parent_id@ =~= hex(nanos as nat, 16));
        TraceContext { trace_id, parent_id, trace_flags: 1 }
    }

    /// Whether the trace is sampled.
    pub fn is_sampled(&self) -> (b: bool)
        ensures
            b == (self.trace_flags % 2 == 1),
    {
        let flags: u8 = self.trace_flags;
        assert(flags & 0x01 == flags % 2) by (bit_vector);
        self.trace_flags & 0x01 != 0
    }

    /// Create a child span context with a new parent ID.
    pub fn child_span(&self, new_parent_id: &str) -> (ctx: Self)
        ensures
            ctx.trace_id@ == self.trace_id@,
            ctx.parent_id@ == new_parent_id@,
            ctx.trace_flags == self.trace_flags,
    {
        TraceContext {
            trace_id: self.trace_id.clone(),
            parent_id: owned(new_parent_id),
            trace_flags: self.trace_flags,
        }
    }
}

fn digit_value(c: char) -> (r: Option<u8>)
    ensures
        match r {
            Some(v) => hex_value(c) == Some(v as nat) && v < 16,
            None => hex_value(c) is None,
        },
{
    if '0' <= c && c <= '9' {
        Some((c as u32 - 48) as u8)
    } else if 'a' <= c && c <= 'f' {
        Some((c as u32 - 87) as u8)
    } else if 'A' <= c && c <= 'F' {
        Some((c as u32 - 55) as u8)
    } else {
        None
    }
}

fn hex_digits(chars: &Vec<char>, from: usize, to: usize) -> (b: bool)
    requires
        from <= to <= chars@.len(),
    ensures
        b == all_hex(chars@.subrange(from as int, to as int)),
{
    let ghost part = chars@.subrange(from as int, to as int);
    let mut i: usize = from;
    while i < to
        invariant
            from <= i <= to <= chars@.len(),
            part == chars@.subrange(from as int, to as int),
            forall|k: int| 0 <= k < i - from ==> hex_value(#[trigger] part[k]) is Some,
        decreases to - i,
    {
        assert(part[i - from] == chars@[i as int]);
        if digit_value(chars[i]).is_none() {
            return false;
        }
        i += 1;
    }
    true
}

/// A number in hexadecimal is made of hexadecimal digits.
proof fn hex_is_hex(n: nat, width: nat)
    ensures
        hex(n, width).len() == width,
        all_hex(hex(n, width)),
    decreases width,
{
    if width > 0 {
        hex_is_hex(n / 16, (width - 1) as nat);
        assert(hex_value(digit_char(n % 16)) is Some);
    }
}

/// Parsing a header gives back the trace context that was written.
pub proof fn header_round_trip(trace_id: Seq<char>, parent_id: Seq<char>, flags: u8)
    requires
        trace_id.len() == 32,
        all_hex(trace_id),
        parent_id.len() == 16,
        all_hex(parent_id),
    ensures
        ({
            let header = header_of(trace_id, parent_id, flags);
            &&& well_formed(header)
            &&& header.subrange(3, 35) == trace_id
            &&& header.subrange(36, 52) == parent_id
            &&& flags_of(header) == flags
        }),
{
    let header = header_of(trace_id, parent_id, flags);
    let two = hex(flags as nat, 2);
    reveal_strlit("00-");
    reveal_strlit("-");
    reveal_with_fuel(hex, 3);
    hex_is_hex(flags as nat, 2);
    let f = flags as nat;
    assert(two[0] == digit_char((f / 16) % 16) && two[1] == digit_char(f % 16));
    assert(header.subrange(3, 35) =~= trace_id);
    assert(header.subrange(36, 52) =~= parent_id);
    assert(header.subrange(53, 55) =~= two);
    assert(header[53] == two[0] && header[54] == two[1]);
}

/// The `tracestate` header: vendor-specific trace data, propagated unchanged.
#[derive(Debug, Clone)]
pub struct TraceState {
    /// Raw header value.
    pub value: String,
}

impl Default for TraceState {
    fn default() -> (t: Self)
        ensures
            t.value@ == ""@,
    {
        TraceState { value: owned("") }
    }
}

impl TraceState {
    /// Take over a `tracestate` header value.
    pub fn parse(header: &str) -> (t: Self)
        ensures
            t.value@ == header@,
    {
        TraceState { value: owned(header) }
    }

    /// The header value.
    pub fn to_header(&self) -> (s: &str)
        ensures
            s@ == self.value@,
    {
        self.value.as_str()
    }
}

/// The headers that are written have the standard form: version 00, the trace ID, the
/// parent ID and the flags as two lower-case digits, with hyphens between.
pub proof fn headers_have_the_standard_form(
    trace_id: Seq<char>,
    parent_id: Seq<char>,
    flags: u8,
)
    requires
        trace_id.len() == 32,
        parent_id.len() == 16,
    ensures
        ({
            let header = header_of(trace_id, parent_id, flags);
            &&& header.len() == 55
            &&& header.take(3) == seq!['0', '0', '-']
            &&& header.subrange(3, 35) == trace_id
            &&& header[35] == '-'
            &&& header.subrange(36, 52) == parent_id
            &&& header[52] == '-'
            &&& hex_number(header.subrange(53, 55)) == flags
        }),
{
    let header = header_of(trace_id, parent_id, flags);
    let two = hex(flags as nat, 2);
    reveal_strlit("00-");
    reveal_strlit("-");
    hex_reads_as_its_number(flags as nat, 2);
    vstd::arithmetic::power::lemma_pow1(16);
    vstd::arithmetic::power::lemma_pow_adds(16, 1, 1);
    assert(vstd::arithmetic::power::pow(16, 2) == 256);
    assert(header.take(3) =~= seq!['0', '0', '-']);
    assert(header.subrange(3, 35) =~= trace_id);
    assert(header.subrange(36, 52) =~= parent_id);
    assert(header.subrange(53, 55) =~= two);
}

/// A header is taken in exactly if it has that form, in hexadecimal digits of either case.
pub proof fn only_the_standard_form_is_taken_in(header: Seq<char>)
    ensures
        well_formed(header) <==> {
            &&& header.len() == 55
            &&& header[0] == '0' && header[1] == '0' && header[2] == '-' && header[35] == '-'
                && header[52] == '-'
            &&& forall|i: int|
                3 <= i < 55 && i != 35 && i != 52 ==> ('0' <= #[trigger] header[i] <= '9' || 'a'
                    <= header[i] <= 'f' || 'A' <= header[i] <= 'F')
        },
{
    if header.len() == 55 {
        let a = header.subrange(3, 35);
        let b = header.subrange(36, 52);
        let c = header.subrange(53, 55);
        if well_formed(header) {
            assert forall|i: int| 3 <= i < 55 && i != 35 && i != 52 implies ('0'
                <= #[trigger] header[i] <= '9' || 'a' <= header[i] <= 'f' || 'A' <= header[i]
                <= 'F') by {
                if i < 35 {
                    assert(hex_value(a[i - 3]) is Some);
                } else if i < 52 {
                    assert(hex_value(b[i - 36]) is Some);
                } else {
                    assert(hex_value(c[i - 53]) is Some);
                }
            }
        }
        if forall|i: int|
            3 <= i < 55 && i != 35 && i != 52 ==> ('0' <= #[trigger] header[i] <= '9' || 'a'
                <= header[i] <= 'f' || 'A' <= header[i] <= 'F') {
            assert forall|i: int| 0 <= i < a.len() implies hex_value(#[trigger] a[i]) is Some by {
                assert(a[i] == header[i + 3]);
            }
            assert forall|i: int| 0 <= i < b.len() implies hex_value(#[trigger] b[i]) is Some by {
                assert(b[i] == header[i + 36]);
            }
            assert forall|i: int| 0 <= i < c.len() implies hex_value(#[trigger] c[i]) is Some by {
                assert(c[i] == header[i + 53]);
            }
        }
    }
}

/// A header that was written from a trace context is taken in as that context.
pub proof fn parsing_undoes_writing(
    ctx: TraceContext,
    written: String,
    header: &str,
    back: Option<TraceContext>,
)
    requires
        ctx.wf(),
        call_ensures(TraceContext::to_header, (&ctx,), written),
        header@ == written@,
        call_ensures(TraceContext::parse, (header,), back),
    ensures
        back is Some,
        back->Some_0.trace_id@ == ctx.trace_id@,
        back->Some_0.parent_id@ == ctx.parent_id@,
        back->Some_0.trace_flags == ctx.trace_flags,
{
    header_round_trip(ctx.trace_id@, ctx.parent_id@, ctx.trace_flags);
}

/// A child span belongs to the trace of its parent, sampled or not as that is, under the
/// parent ID that it is given.
pub proof fn child_spans_stay_in_the_trace(
    ctx: TraceContext,
    parent: &str,
    child: TraceContext,
    sampled: bool,
    child_sampled: bool,
)
    requires
        call_ensures(TraceContext::child_span, (&ctx, parent), child),
        call_ensures(TraceContext::is_sampled, (&ctx,), sampled),
        call_ensures(TraceContext::is_sampled, (&child,), child_sampled),
    ensures
        child.trace_id@ == ctx.trace_id@,
        child.parent_id@ == parent@,
        child_sampled == sampled,
        sampled <==> ctx.trace_flags % 2 == 1,
{
}

/// A context taken from a clock reading is sampled and well formed, and its trace ID reads
/// as the reading.
pub proof fn fresh_contexts_come_from_the_clock(nanos: u128, ctx: TraceContext)
    requires
        call_ensures(TraceContext::new_random, (nanos,), ctx),
    ensures
        ctx.trace_id@.len() == 32,
        ctx.parent_id@.len() == 16,
        ctx.trace_flags == 1,
        hex_number(ctx.trace_id@) == nanos,
{
    hex_reads_as_its_number(nanos as nat, 32);
    vstd::arithmetic::power::lemma_pow1(16);
    assert(vstd::arithmetic::power::pow(16, 2) == 0x100) by {
        vstd::arithmetic::power::lemma_pow_adds(16, 1, 1);
    }
    assert(vstd::arithmetic::power::pow(16, 4) == 0x1_0000) by {
        vstd::arithmetic::power::lemma_pow_adds(16, 2, 2);
    }
    assert(vstd::arithmetic::power::pow(16, 8) == 0x1_0000_0000) by {
        vstd::arithmetic::power::lemma_pow_adds(16, 4, 4);
    }
    assert(vstd::arithmetic::power::pow(16, 16) == 0x1_0000_0000_0000_0000) by {
        vstd::arithmetic::power::lemma_pow_adds(16, 8, 8);
    }
    assert(vstd::arithmetic::power::pow(16, 32) == 0x1_0000_0000_0000_0000_0000_0000_0000_0000) by {
        vstd::arithmetic::power::lemma_pow_adds(16, 16, 16);
    }
}

} // verus!
