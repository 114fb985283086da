//! The breakpoint and event bookkeeping of the MAME PC-98 debug bridge.
//!
//! The bridge talks to MAME through a Lua backend. The decisions stand here: which requests are
//! valid, what command each sends, what the bridge records once the backend has answered, and
//! which queued events a poll hands out. Sending the commands is the caller's part.
use vstd::prelude::*;
use crate::fmt::{decimal, decimal_string, digit_char, hex_lower, hex_upper, push_radix};
use crate::text::chars_of;
use crate::transport::{BridgeError, BridgeResult};

verus! {

/// What a breakpoint watches.
#[derive(Debug, Clone, Copy, PartialEq, Eq, Structural)]
pub enum BreakpointKind {
    /// Execution of an address.
    Exec,
    /// Writes to a range.
    Write,
    /// Reads of a range.
    Read,
    /// Reads or writes of a range.
    Access,
    /// A register leaving a range of values.
    Reg,
}

/// The MAME point type code of a memory breakpoint kind.
pub open spec fn kind_code(k: BreakpointKind) -> Seq<char> {
    match k {
        BreakpointKind::Exec => seq!['0'],
        BreakpointKind::Write => seq!['2'],
        BreakpointKind::Read => seq!['3'],
        BreakpointKind::Access => seq!['4'],
        BreakpointKind::Reg => Seq::empty(),
    }
}

/// The name of a kind as requests and listings spell it.
pub open spec fn kind_name(k: BreakpointKind) -> Seq<char> {
    match k {
        BreakpointKind::Exec => "exec"@,
        BreakpointKind::Write => "write"@,
        BreakpointKind::Read => "read"@,
        BreakpointKind::Access => "access"@,
        BreakpointKind::Reg => "reg"@,
    }
}

/// A region of the machine's memory: where it starts on the bus and how many bytes it spans.
#[derive(Debug, Clone, Copy)]
pub struct Region {
    pub base: u64,
    pub size: u64,
}

/// A breakpoint as the bridge records it.
pub struct Breakpoint<S> {
    pub kind: BreakpointKind,
    /// First bus address watched (memory breakpoints).
    pub addr: Option<u64>,
    /// Number of bytes watched (memory breakpoints).
    pub size: Option<u64>,
    /// The backend's point table (`rp` for register points).
    pub backend: String,
    /// The backend's id of the point.
    pub backend_id: String,
    pub condition: Option<String>,
    /// What to capture when the breakpoint hits.
    pub snapshots: Vec<S>,
    pub pause_on_hit: bool,
    /// The register as the request named it (register points).
    pub register: Option<String>,
    /// The key of the register in stop states (register points).
    pub state_key: Option<String>,
    pub min: Option<u64>,
    pub max: Option<u64>,
}

/// What a queued event is, as far as polling reads it.
#[derive(Debug, Clone, Copy)]
pub struct EventKey {
    /// A plain `S05` stop, which a reset makes stale.
    pub reset_stop: bool,
    /// The breakpoint the event belongs to, if any.
    pub breakpoint_id: Option<u64>,
}

/// An event waiting to be polled.
pub struct QueuedEvent<E> {
    pub key: EventKey,
    pub body: E,
}

/// The breakpoint table and event queue of a bridge.
pub struct Bridge<S, E> {
    bps: Vec<(u64, Breakpoint<S>)>,
    next_bp: u64,
    events: Vec<QueuedEvent<E>>,
}

impl<S, E> View for Bridge<S, E> {
    /// The breakpoints with their ids in table order, the id the next one gets, and the queued
    /// events in order.
    type V = (Seq<(u64, Breakpoint<S>)>, u64, Seq<QueuedEvent<E>>);

    closed spec fn view(&self) -> Self::V {
        (self.bps@, self.next_bp, self.events@)
    }
}

/// `o`, or `d` when it is absent.
pub open spec fn or_else(o: Option<u64>, d: u64) -> u64 {
    match o {
        Some(x) => x,
        None => d,
    }
}

/// Whether the last byte of a memory breakpoint still has an address.
pub open spec fn end_fits<S>(bp: Breakpoint<S>) -> bool {
    bp.kind != BreakpointKind::Reg ==> or_else(bp.addr, 0) + or_else(bp.size, 1) - 1 <= u64::MAX
}

/// A table is sound when its ids ascend, all lie below the next id, and every memory
/// breakpoint ends at an address.
pub open spec fn table_wf<S>(entries: Seq<(u64, Breakpoint<S>)>, next: u64) -> bool {
    &&& forall|i: int, j: int| 0 <= i < j < entries.len() ==> entries[i].0 < entries[j].0
    &&& forall|i: int| 0 <= i < entries.len() ==> entries[i].0 < next
    &&& forall|i: int| 0 <= i < entries.len() ==> end_fits(#[trigger] entries[i].1)
}

/// The position of breakpoint `id` in `entries`, searching from `from`.
pub open spec fn index_of_id<S>(entries: Seq<(u64, Breakpoint<S>)>, id: u64, from: int) -> Option<
    int,
>
    decreases entries.len() - from,
{
    if from < 0 || from >= entries.len() {
        None
    } else if entries[from].0 == id {
        Some(from)
    } else {
        index_of_id(entries, id, from + 1)
    }
}

/// `entries` without breakpoint `id`.
pub open spec fn without_id<S>(entries: Seq<(u64, Breakpoint<S>)>, id: u64) -> Seq<
    (u64, Breakpoint<S>),
> {
    match index_of_id(entries, id, 0) {
        Some(i) => entries.remove(i),
        None => entries,
    }
}

proof fn lemma_index_of_id<S>(entries: Seq<(u64, Breakpoint<S>)>, id: u64, from: int)
    requires
        0 <= from,
    ensures
        index_of_id(entries, id, from) matches Some(i) ==> from <= i < entries.len()
            && entries[i].0 == id,
        index_of_id(entries, id, from) is None ==> forall|k: int|
            from <= k < entries.len() ==> entries[k].0 != id,
    decreases entries.len() - from,
{
    if from < entries.len() && entries[from].0 != id {
        lemma_index_of_id(entries, id, from + 1);
    }
}

/// The parameters of a memory breakpoint request that have defaults.
pub struct BreakpointParams<'a> {
    /// `exec`, `write`, `read` or `access`; `exec` when absent.
    pub kind: Option<&'a str>,
    /// The region the offsets refer to; `physical` when absent.
    pub memory_type: Option<&'a str>,
    /// Whether a hit pauses the machine; it does when absent.
    pub pause_on_hit: Option<bool>,
}

impl<'a> BreakpointParams<'a> {
    /// The requested kind's name, `exec` when absent.
    pub open spec fn kind_or_default(&self) -> Seq<char> {
        match self.kind {
            Some(k) => k@,
            None => "exec"@,
        }
    }

    /// The requested memory type's name, `physical` when absent.
    pub open spec fn memory_type_or_default(&self) -> Seq<char> {
        match self.memory_type {
            Some(m) => m@,
            None => "physical"@,
        }
    }

    /// Whether a hit pauses the machine; it does when the request does not say.
    pub open spec fn pause_or_default(&self) -> bool {
        match self.pause_on_hit {
            Some(p) => p,
            None => true,
        }
    }

    /// The requested kind's name.
    pub fn kind_text(&self) -> (r: &'a str)
        ensures
            r@ == match self.kind {
                Some(k) => k@,
                None => "exec"@,
            },
    {
        match self.kind {
            Some(k) => k,
            None => "exec",
        }
    }

    /// The requested memory type's name.
    pub fn memory_type_text(&self) -> (r: &'a str)
        ensures
            r@ == match self.memory_type {
                Some(m) => m@,
                None => "physical"@,
            },
    {
        match self.memory_type {
            Some(m) => m,
            None => "physical",
        }
    }

    /// Whether a hit pauses the machine.
    pub fn pauses(&self) -> (r: bool)
        ensures
            r == match self.pause_on_hit {
                Some(p) => p,
                None => true,
            },
    {
        match self.pause_on_hit {
            Some(p) => p,
            None => true,
        }
    }
}

/// Whether two texts are the same.
fn same_text(a: &str, b: &str) -> (r: bool)
    ensures
        r == (a@ == b@),
{
    String::from_str(a) == String::from_str(b)
}

/// The memory breakpoint kind that `t` names, if any.
pub open spec fn kind_named(t: Seq<char>) -> Option<BreakpointKind> {
    if t == "exec"@ {
        Some(BreakpointKind::Exec)
    } else if t == "write"@ {
        Some(BreakpointKind::Write)
    } else if t == "read"@ {
        Some(BreakpointKind::Read)
    } else if t == "access"@ {
        Some(BreakpointKind::Access)
    } else {
        None
    }
}

/// The message that refuses an unknown breakpoint kind.
pub open spec fn unknown_kind_message() -> Seq<char> {
    "MAME PC-98 supports exec/read/write/access breakpoints"@
}

/// The memory breakpoint kind named `kind`; only `exec`, `write`, `read` and `access` exist.
pub fn breakpoint_kind(kind: &str) -> (r: BridgeResult<BreakpointKind>)
    ensures
        match kind_named(kind@) {
            Some(k) => r == Ok::<BreakpointKind, BridgeError>(k),
            None => r matches Err(BridgeError::BadParams(m)) && m@ == unknown_kind_message(),
        },
        r matches Ok(k) ==> k != BreakpointKind::Reg && kind_name(k) == kind@,
{
    if same_text(kind, "exec") {
        Ok(BreakpointKind::Exec)
    } else if same_text(kind, "write") {
        Ok(BreakpointKind::Write)
    } else if same_text(kind, "read") {
        Ok(BreakpointKind::Read)
    } else if same_text(kind, "access") {
        Ok(BreakpointKind::Access)
    } else {
        Err(
            BridgeError::BadParams(
                String::from_str("MAME PC-98 supports exec/read/write/access breakpoints"),
            ),
        )
    }
}

/// The region that `memory_type` names, once it has been looked up; a type that names none is
/// refused.
pub fn require_region(memory_type: &str, region: Option<Region>) -> (r: BridgeResult<Region>)
    ensures
        match region {
            Some(g) => r matches Ok(h) && h == g,
            None => r matches Err(BridgeError::BadParams(m)) && m@ == "unsupported memory_type: "@
                + memory_type@,
        },
{
    match region {
        Some(g) => Ok(g),
        None => {
            let mut m = String::from_str("unsupported memory_type: ");
            m.append(memory_type);
            Err(BridgeError::BadParams(m))
        },
    }
}

/// The inclusive end offset of a request: `end` when given and not below `start`, else `start`.
pub open spec fn end_offset(start: u64, end: Option<u64>) -> u64 {
    match end {
        Some(e) => if e >= start {
            e
        } else {
            start
        },
        None => start,
    }
}

/// The number of bytes that a request for offsets `start..=end` watches; it reaches 2^64 when
/// the request spans every offset.
pub open spec fn span(start: u64, end: Option<u64>) -> nat {
    (end_offset(start, end) - start + 1) as nat
}

/// The message for a range that leaves its region.
pub open spec fn out_of_range_message(memory_type: Seq<char>, start: u64, size: nat, region_size: u64)
    -> Seq<char> {
    memory_type + " breakpoint out of range: offset 0x"@ + hex_lower(start as nat) + "+0x"@
        + hex_lower(size) + " exceeds region size 0x"@ + hex_lower(region_size as nat)
}

/// Sixteen times `n` in hexadecimal is `n` in hexadecimal followed by `0`.
proof fn lemma_hex_times_16(n: nat)
    requires
        n >= 1,
    ensures
        hex_lower(n * 16) == hex_lower(n) + seq!['0'],
{
    assert((n * 16) / 16 == n && (n * 16) % 16 == 0 && n * 16 >= 16) by (nonlinear_arith)
        requires
            n >= 1,
    ;
    assert(digit_char(0, false) == '0');
}

/// Appends `" breakpoint out of range: ..."` for offset `start`, a range of `d + 1` bytes and
/// a region of `region_size` bytes to `m`.
fn push_out_of_range(m: &mut String, start: u64, d: u64, region_size: u64)
    ensures
        final(m)@ == old(m)@ + " breakpoint out of range: offset 0x"@ + hex_lower(start as nat)
            + "+0x"@ + hex_lower((d + 1) as nat) + " exceeds region size 0x"@ + hex_lower(
            region_size as nat,
        ),
{
    let ghost m0 = m@;
    m.append(" breakpoint out of range: offset 0x");
    push_radix(m, start, 16, false);
    m.append("+0x");
    let ghost m1 = m@;
    if d == u64::MAX {
        push_radix(m, 0x1000_0000_0000_0000, 16, false);
        m.append("0");
        proof {
            reveal_strlit("0");
            lemma_hex_times_16(0x1000_0000_0000_0000);
            assert(m@ =~= m1 + hex_lower((d + 1) as nat));
        }
    } else {
        push_radix(m, d + 1, 16, false);
    }
    m.append(" exceeds region size 0x");
    push_radix(m, region_size, 16, false);
}

/// The bus range `(addr, size)` of a breakpoint on offsets `start..=end` of `region`. The range
/// must lie inside the region; an end below the start watches one byte.
pub fn breakpoint_range(memory_type: &str, region: Region, start: u64, end: Option<u64>) -> (r:
    BridgeResult<(u64, u64)>)
    requires
        region.base + region.size <= u64::MAX,
    ensures
        ({
            let size = span(start, end);
            if start + size <= region.size {
                r matches Ok((addr, sz)) && addr == region.base + start && sz == size
            } else {
                r matches Err(BridgeError::BadParams(m)) && m@ == out_of_range_message(
                    memory_type@,
                    start,
                    size,
                    region.size,
                )
            }
        }),
{
    let e = match end {
        Some(e) => if e >= start {
            e
        } else {
            start
        },
        None => start,
    };
    let d = e - start;
    let fits = if d == u64::MAX {
        false
    } else {
        match start.checked_add(d + 1) {
            Some(last) => last <= region.size,
            None => false,
        }
    };
    if !fits {
        let mut m = String::from_str(memory_type);
        push_out_of_range(&mut m, start, d, region.size);
        return Err(BridgeError::BadParams(m));
    }
    Ok((region.base + start, d + 1))
}

/// `1` for a breakpoint that pauses, `0` otherwise.
pub open spec fn pause_flag(pause: bool) -> Seq<char> {
    if pause {
        "1"@
    } else {
        "0"@
    }
}

/// The backend command argument that sets a memory breakpoint:
/// `<code>|<addr hex>|<size hex>|<pause flag>|<condition>`.
pub open spec fn point_spec(kind: BreakpointKind, addr: u64, size: u64, pause: bool, condition: Seq<
    char,
>) -> Seq<char> {
    kind_code(kind) + "|"@ + hex_lower(addr as nat) + "|"@ + hex_lower(size as nat) + "|"@
        + pause_flag(pause) + "|"@ + condition
}

/// Builds [`point_spec`].
pub fn breakpoint_spec(kind: BreakpointKind, addr: u64, size: u64, pause: bool, condition: &str) -> (r:
    String)
    requires
        kind != BreakpointKind::Reg,
    ensures
        r@ == point_spec(kind, addr, size, pause, condition@),
{
    let mut s = match kind {
        BreakpointKind::Exec => String::from_str("0"),
        BreakpointKind::Write => String::from_str("2"),
        BreakpointKind::Read => String::from_str("3"),
        _ => String::from_str("4"),
    };
    proof {
        reveal_strlit("0");
        reveal_strlit("2");
        reveal_strlit("3");
        reveal_strlit("4");
    }
    s.append("|");
    push_radix(&mut s, addr, 16, false);
    s.append("|");
    push_radix(&mut s, size, 16, false);
    s.append("|");
    s.append(if pause { "1" } else { "0" });
    s.append("|");
    s.append(condition);
    s
}

/// The condition under which a register point fires: the register leaves `min..=max`.
pub open spec fn register_condition(expr_reg: Seq<char>, min: u64, max: u64) -> Seq<char> {
    "("@ + expr_reg + " < "@ + hex_upper(min as nat) + ") || ("@ + expr_reg + " > "@ + hex_upper(
        max as nat,
    ) + ")"@
}

/// The bounds and firing condition of a register point on `expr_reg`: `min` defaults to 0 and
/// `max` to `0xFFFFFFFF`; a `min` above `max` is refused.
pub fn register_watch(expr_reg: &str, min: Option<u64>, max: Option<u64>) -> (r: BridgeResult<
    (u64, u64, String),
>)
    ensures
        ({
            let lo = or_else(min, 0);
            let hi = or_else(max, 0xFFFF_FFFF);
            if lo > hi {
                r matches Err(BridgeError::BadParams(m)) && m@ == "min must be <= max"@
            } else {
                r matches Ok((a, b, c)) && a == lo && b == hi && c@ == register_condition(
                    expr_reg@,
                    lo,
                    hi,
                )
            }
        }),
{
    let lo = match min {
        Some(x) => x,
        None => 0,
    };
    let hi = match max {
        Some(x) => x,
        None => 0xFFFF_FFFF,
    };
    if lo > hi {
        return Err(BridgeError::BadParams(String::from_str("min must be <= max")));
    }
    let mut c = String::from_str("(");
    c.append(expr_reg);
    c.append(" < ");
    push_radix(&mut c, lo, 16, true);
    c.append(") || (");
    c.append(expr_reg);
    c.append(" > ");
    push_radix(&mut c, hi, 16, true);
    c.append(")");
    Ok((lo, hi, c))
}

/// The backend command argument that sets a register point: `<pause flag>|<condition>`.
pub fn regpoint_spec(pause: bool, condition: &str) -> (r: String)
    ensures
        r@ == pause_flag(pause) + "|"@ + condition@,
{
    let mut s = String::from_str(if pause { "1" } else { "0" });
    s.append("|");
    s.append(condition);
    s
}

/// A memory breakpoint request that passed its checks: what the bridge records once the
/// backend has set it, and `spec`, the argument of the `setpoint` command that sets it.
#[derive(Debug)]
pub struct PendingPoint<S> {
    pub kind: BreakpointKind,
    pub addr: u64,
    pub size: u64,
    pub condition: String,
    pub snapshots: Vec<S>,
    pub pause_on_hit: bool,
    pub spec: String,
}

/// Checks a memory breakpoint request and builds its `setpoint` command. The request's parts
/// come as the caller read them: the kind, memory type and pause flag in `params`, the region
/// that the memory type names (none for an unknown type), the start and end offsets, the
/// snapshot specs and the condition, each of which may have failed to read. They are checked
/// in that order, and the first failure is the answer; nothing is sent on a failure.
pub fn plan_breakpoint<S>(
    params: &BreakpointParams,
    region: Option<Region>,
    start: BridgeResult<u64>,
    end: BridgeResult<Option<u64>>,
    snapshots: BridgeResult<Vec<S>>,
    condition: BridgeResult<String>,
) -> (r: BridgeResult<PendingPoint<S>>)
    requires
        region matches Some(g) ==> g.base + g.size <= u64::MAX,
    ensures
        match kind_named(params.kind_or_default()) {
            None => r matches Err(BridgeError::BadParams(m)) && m@ == unknown_kind_message(),
            Some(k) => match region {
                None => r matches Err(BridgeError::BadParams(m)) && m@
                    == "unsupported memory_type: "@ + params.memory_type_or_default(),
                Some(g) => match start {
                    Err(e) => r matches Err(x) && x == e,
                    Ok(s) => match end {
                        Err(e) => r matches Err(x) && x == e,
                        Ok(en) => if s + span(s, en) > g.size {
                            r matches Err(BridgeError::BadParams(m)) && m@ == out_of_range_message(
                                params.memory_type_or_default(),
                                s,
                                span(s, en),
                                g.size,
                            )
                        } else {
                            match snapshots {
                                Err(e) => r matches Err(x) && x == e,
                                Ok(sn) => match condition {
                                    Err(e) => r matches Err(x) && x == e,
                                    Ok(c) => r matches Ok(p) && p.kind == k && p.addr == g.base + s
                                        && p.size == span(s, en) && p.condition == c
                                        && p.snapshots == sn && p.pause_on_hit
                                        == params.pause_or_default() && p.spec@ == point_spec(
                                        k,
                                        p.addr,
                                        p.size,
                                        p.pause_on_hit,
                                        c@,
                                    ),
                                },
                            }
                        },
                    },
                },
            },
        },
{
    let kind = match breakpoint_kind(params.kind_text()) {
        Ok(k) => k,
        Err(e) => return Err(e),
    };
    let memory_type = params.memory_type_text();
    let g = match require_region(memory_type, region) {
        Ok(g) => g,
        Err(e) => return Err(e),
    };
    let s = match start {
        Ok(s) => s,
        Err(e) => return Err(e),
    };
    let en = match end {
        Ok(x) => x,
        Err(e) => return Err(e),
    };
    let (addr, size) = match breakpoint_range(memory_type, g, s, en) {
        Ok(x) => x,
        Err(e) => return Err(e),
    };
    let snaps = match snapshots {
        Ok(x) => x,
        Err(e) => return Err(e),
    };
    let c = match condition {
        Ok(x) => x,
        Err(e) => return Err(e),
    };
    let pause = params.pauses();
    let spec = breakpoint_spec(kind, addr, size, pause, c.as_str());
    Ok(PendingPoint { kind, addr, size, condition: c, snapshots: snaps, pause_on_hit: pause, spec })
}

/// The breakpoint recorded for `p` once the backend has set it as `backend_id` in its table
/// `backend`; an empty condition is recorded as none.
pub open spec fn recorded_point<S>(p: PendingPoint<S>, backend: String, backend_id: String) -> Breakpoint<
    S,
> {
    Breakpoint {
        kind: p.kind,
        addr: Some(p.addr),
        size: Some(p.size),
        backend,
        backend_id,
        condition: nonempty(p.condition),
        snapshots: p.snapshots,
        pause_on_hit: p.pause_on_hit,
        register: None,
        state_key: None,
        min: None,
        max: None,
    }
}

/// A register watch request that passed its checks: what the bridge records once the backend
/// has set it, and `spec`, the argument of the `setregpoint` command that sets it.
#[derive(Debug)]
pub struct PendingRegisterPoint {
    /// The register as the request named it.
    pub register: String,
    /// The register's key in stop states.
    pub state_key: String,
    pub min: u64,
    pub max: u64,
    pub condition: String,
    pub pause_on_hit: bool,
    pub spec: String,
}

/// The register a watch request names, `sp` when it names none.
pub open spec fn register_or_default(register: Option<&str>) -> Seq<char> {
    match register {
        Some(t) => t@,
        None => "sp"@,
    }
}

/// Checks a register watch request and builds its `setregpoint` command. The request's parts
/// come as the caller read them: the register text, its expression and state key as the
/// register table gives them for that text, the bounds and the pause flag. They are checked in
/// that order, then `min <= max`; the first failure is the answer and nothing is sent on it.
pub fn plan_register_watch(
    register: Option<&str>,
    normalized: BridgeResult<(String, String)>,
    min: BridgeResult<Option<u64>>,
    max: BridgeResult<Option<u64>>,
    pause_on_hit: Option<bool>,
) -> (r: BridgeResult<PendingRegisterPoint>)
    ensures
        match normalized {
            Err(e) => r matches Err(x) && x == e,
            Ok((expr, key)) => match min {
                Err(e) => r matches Err(x) && x == e,
                Ok(lo) => match max {
                    Err(e) => r matches Err(x) && x == e,
                    Ok(hi) => if or_else(lo, 0) > or_else(hi, 0xFFFF_FFFF) {
                        r matches Err(BridgeError::BadParams(m)) && m@ == "min must be <= max"@
                    } else {
                        r matches Ok(p) && p.register@ == register_or_default(register)
                            && p.state_key == key && p.min == or_else(lo, 0) && p.max == or_else(
                            hi,
                            0xFFFF_FFFF,
                        ) && p.condition@ == register_condition(expr@, p.min, p.max)
                            && p.pause_on_hit == or_bool(pause_on_hit, true) && p.spec@
                            == pause_flag(p.pause_on_hit) + "|"@ + p.condition@
                    },
                },
            },
        },
{
    let (expr, key) = match normalized {
        Ok(x) => x,
        Err(e) => return Err(e),
    };
    let lo = match min {
        Ok(x) => x,
        Err(e) => return Err(e),
    };
    let hi = match max {
        Ok(x) => x,
        Err(e) => return Err(e),
    };
    let (a, b, c) = match register_watch(expr.as_str(), lo, hi) {
        Ok(x) => x,
        Err(e) => return Err(e),
    };
    let pause = match pause_on_hit {
        Some(p) => p,
        None => true,
    };
    let spec = regpoint_spec(pause, c.as_str());
    let raw = match register {
        Some(t) => String::from_str(t),
        None => String::from_str("sp"),
    };
    Ok(PendingRegisterPoint { register: raw, state_key: key, min: a, max: b, condition: c, pause_on_hit: pause, spec })
}

/// `o`, or `d` when it is absent.
pub open spec fn or_bool(o: Option<bool>, d: bool) -> bool {
    match o {
        Some(x) => x,
        None => d,
    }
}

/// Whether `bp` is the register point recorded for `p` once the backend has set it as
/// `backend_id` in its register point table `rp`.
pub open spec fn is_register_record<S>(bp: Breakpoint<S>, p: PendingRegisterPoint, backend_id: String) -> bool {
    &&& bp.kind == BreakpointKind::Reg
    &&& bp.addr is None
    &&& bp.size is None
    &&& bp.backend@ == "rp"@
    &&& bp.backend_id == backend_id
    &&& bp.condition == Some(p.condition)
    &&& bp.snapshots@.len() == 0
    &&& bp.pause_on_hit == p.pause_on_hit
    &&& bp.register == Some(p.register)
    &&& bp.state_key == Some(p.state_key)
    &&& bp.min == Some(p.min)
    &&& bp.max == Some(p.max)
}

/// Whether the backend's answer to a clear command reports the point gone.
pub open spec fn clear_answer_ok(t: Seq<char>) -> bool {
    t == "OK"@ || t == "E00"@
}

/// Whether an answer (or the failure to get one) clears a breakpoint.
pub open spec fn clears(a: BridgeResult<String>) -> bool {
    a matches Ok(t) && clear_answer_ok(t@)
}

/// Clearing every breakpoint of `entries`, the backend answering `answers[i]` for the `i`-th:
/// the ids cleared and the breakpoints that stay, each in table order.
pub open spec fn clear_all_split<S>(
    entries: Seq<(u64, Breakpoint<S>)>,
    answers: Seq<BridgeResult<String>>,
) -> (Seq<u64>, Seq<(u64, Breakpoint<S>)>)
    decreases entries.len(),
{
    if entries.len() == 0 {
        (Seq::empty(), Seq::empty())
    } else {
        let (c, k) = clear_all_split(entries.drop_last(), answers);
        let i = entries.len() - 1;
        if clears(answers[i]) {
            (c.push(entries[i].0), k)
        } else {
            (c, k.push(entries[i]))
        }
    }
}

/// One row of a breakpoint listing.
pub enum BreakpointRow {
    /// A register point.
    Register {
        id: u64,
        register: Option<String>,
        min: Option<u64>,
        max: Option<u64>,
        condition: Option<String>,
    },
    /// A memory breakpoint on the inclusive bus range `start..=end`.
    Memory { id: u64, kind: BreakpointKind, start: u64, end: u64, condition: Option<String> },
}

/// The listing row of breakpoint `id`.
pub open spec fn row_of<S>(id: u64, bp: Breakpoint<S>) -> BreakpointRow {
    if bp.kind == BreakpointKind::Reg {
        BreakpointRow::Register {
            id,
            register: bp.register,
            min: bp.min,
            max: bp.max,
            condition: bp.condition,
        }
    } else {
        let start = or_else(bp.addr, 0);
        let size = or_else(bp.size, 1);
        BreakpointRow::Memory {
            id,
            kind: bp.kind,
            start,
            end: (if size == 0 {
                start
            } else {
                (start + size - 1) as u64
            }),
            condition: bp.condition,
        }
    }
}

/// `Some(c)` for a non-empty condition, none for an empty one.
pub open spec fn nonempty(c: String) -> Option<String> {
    if c@.len() == 0 {
        None
    } else {
        Some(c)
    }
}

fn clone_opt(o: &Option<String>) -> (r: Option<String>)
    ensures
        r == *o,
{
    match o {
        Some(s) => Some(s.clone()),
        None => None,
    }
}

/// Whether an event is kept by a poll: stale stops are dropped after a reset.
pub open spec fn kept<E>(ev: QueuedEvent<E>, saw_reset: bool) -> bool {
    !(saw_reset && ev.key.reset_stop)
}

/// Whether a kept event is handed out by a poll for `filter`.
pub open spec fn selected<E>(ev: QueuedEvent<E>, filter: Option<u64>) -> bool {
    match filter {
        Some(f) => ev.key.breakpoint_id == Some(f),
        None => true,
    }
}

/// What a poll does with the queue `evs`: the bodies it hands out, and the events that stay
/// queued, each in queue order.
pub open spec fn poll_split<E>(evs: Seq<QueuedEvent<E>>, saw_reset: bool, filter: Option<u64>) -> (
    Seq<E>,
    Seq<QueuedEvent<E>>,
)
    decreases evs.len(),
{
    if evs.len() == 0 {
        (Seq::empty(), Seq::empty())
    } else {
        let (d, r) = poll_split(evs.drop_last(), saw_reset, filter);
        let e = evs.last();
        if !kept(e, saw_reset) {
            (d, r)
        } else if selected(e, filter) {
            (d.push(e.body), r)
        } else {
            (d, r.push(e))
        }
    }
}

impl<S, E> Bridge<S, E> {
    /// Whether the table is sound (see [`table_wf`]).
    pub open spec fn wf(&self) -> bool {
        table_wf(self@.0, self@.1)
    }

    /// An empty bridge whose first breakpoint gets id `first_id`.
    pub fn new(first_id: u64) -> (b: Self)
        ensures
            b@.0 == Seq::<(u64, Breakpoint<S>)>::empty(),
            b@.1 == first_id,
            b@.2 == Seq::<QueuedEvent<E>>::empty(),
            b.wf(),
    {
        Bridge { bps: Vec::new(), next_bp: first_id, events: Vec::new() }
    }

    /// The id the next breakpoint gets.
    pub fn next_id(&self) -> (r: u64)
        ensures
            r == self@.1,
    {
        self.next_bp
    }

    fn record(&mut self, bp: Breakpoint<S>) -> (id: u64)
        requires
            old(self).wf(),
            old(self)@.1 < u64::MAX,
            end_fits(bp),
        ensures
            id == old(self)@.1,
            final(self)@.0 == old(self)@.0.push((id, bp)),
            final(self)@.1 == old(self)@.1 + 1,
            final(self)@.2 == old(self)@.2,
            final(self).wf(),
    {
        let id = self.next_bp;
        self.next_bp = self.next_bp + 1;
        self.bps.push((id, bp));
        proof {
            let e = self.bps@;
            assert forall|i: int| 0 <= i < e.len() implies end_fits(#[trigger] e[i].1) by {
                if i < e.len() - 1 {
                    assert(e[i] == old(self)@.0[i]);
                }
            }
        }
        id
    }

    /// Takes the backend's reply to the `setpoint` command of `pending`: its table and id of the
    /// point, or the failure to set it or to read the reply. On success the breakpoint is
    /// recorded under the next id, which is the answer; a failure is the answer and leaves the
    /// bridge as it was.
    pub fn set_breakpoint(
        &mut self,
        pending: PendingPoint<S>,
        reply: BridgeResult<(String, String)>,
    ) -> (r: BridgeResult<u64>)
        requires
            old(self).wf(),
            old(self)@.1 < u64::MAX,
            pending.kind != BreakpointKind::Reg,
            pending.addr + pending.size - 1 <= u64::MAX,
        ensures
            final(self).wf(),
            match reply {
                Err(e) => r matches Err(x) && x == e && final(self)@ == old(self)@,
                Ok((backend, backend_id)) => r == Ok::<u64, BridgeError>(old(self)@.1)
                    && final(self)@.0 == old(self)@.0.push(
                    (old(self)@.1, recorded_point(pending, backend, backend_id)),
                ) && final(self)@.1 == old(self)@.1 + 1 && final(self)@.2 == old(self)@.2,
            },
    {
        let (backend, backend_id) = match reply {
            Ok(x) => x,
            Err(e) => return Err(e),
        };
        let condition = if pending.condition.as_str().unicode_len() == 0 {
            None
        } else {
            Some(pending.condition)
        };
        let id = self.record(
            Breakpoint {
                kind: pending.kind,
                addr: Some(pending.addr),
                size: Some(pending.size),
                backend,
                backend_id,
                condition,
                snapshots: pending.snapshots,
                pause_on_hit: pending.pause_on_hit,
                register: None,
                state_key: None,
                min: None,
                max: None,
            },
        );
        Ok(id)
    }

    /// Takes the backend's reply to the `setregpoint` command of `pending`: the id of the
    /// register point, or the failure to set it or to read the reply. On success the point is
    /// recorded under the next id, which is the answer; a failure is the answer and leaves the
    /// bridge as it was.
    pub fn watch_register(&mut self, pending: PendingRegisterPoint, reply: BridgeResult<String>) -> (r:
        BridgeResult<u64>)
        requires
            old(self).wf(),
            old(self)@.1 < u64::MAX,
        ensures
            final(self).wf(),
            match reply {
                Err(e) => r matches Err(x) && x == e && final(self)@ == old(self)@,
                Ok(backend_id) => r == Ok::<u64, BridgeError>(old(self)@.1) && final(self)@.0.len()
                    == old(self)@.0.len() + 1 && final(self)@.0.drop_last() == old(self)@.0
                    && final(self)@.0.last().0 == old(self)@.1 && is_register_record(
                    final(self)@.0.last().1,
                    pending,
                    backend_id,
                ) && final(self)@.1 == old(self)@.1 + 1 && final(self)@.2 == old(self)@.2,
            },
    {
        let backend_id = match reply {
            Ok(x) => x,
            Err(e) => return Err(e),
        };
        let bp = Breakpoint {
            kind: BreakpointKind::Reg,
            addr: None,
            size: None,
            backend: String::from_str("rp"),
            backend_id,
            condition: Some(pending.condition),
            snapshots: Vec::new(),
            pause_on_hit: pending.pause_on_hit,
            register: Some(pending.register),
            state_key: Some(pending.state_key),
            min: Some(pending.min),
            max: Some(pending.max),
        };
        let id = self.record(bp);
        proof {
            reveal_strlit("rp");
            assert(self@.0.drop_last() =~= old(self)@.0);
        }
        Ok(id)
    }

    fn find(&self, id: u64) -> (r: Option<usize>)
        ensures
            r matches Some(k) ==> index_of_id(self@.0, id, 0) == Some(k as int),
            r is None ==> index_of_id(self@.0, id, 0) is None,
    {
        let mut i: usize = 0;
        while i < self.bps.len()
            invariant
                i <= self.bps.len(),
                index_of_id(self@.0, id, 0) == index_of_id(self@.0, id, i as int),
            decreases self.bps.len() - i,
        {
            if self.bps[i].0 == id {
                return Some(i);
            }
            i = i + 1;
        }
        None
    }

    /// The backend command argument that clears breakpoint `id`: `<table>|<backend id>`.
    /// Unknown ids are refused.
    pub fn clear_request(&self, id: u64) -> (r: BridgeResult<String>)
        ensures
            match index_of_id(self@.0, id, 0) {
                Some(i) => r matches Ok(s) && s@ == self@.0[i].1.backend@ + "|"@
                    + self@.0[i].1.backend_id@,
                None => r matches Err(BridgeError::BadParams(m)) && m@
                    == "unknown breakpoint id: "@ + decimal(id as nat),
            },
    {
        proof {
            lemma_index_of_id(self@.0, id, 0);
        }
        match self.find(id) {
            Some(i) => {
                let bp = &self.bps[i].1;
                assert(*bp == self@.0[i as int].1);
                let mut s = bp.backend.clone();
                assert(s@ == bp.backend@);
                s.append("|");
                s.append(bp.backend_id.as_str());
                assert(s@ == bp.backend@ + "|"@ + bp.backend_id@);
                Ok(s)
            },
            None => {
                let mut m = String::from_str("unknown breakpoint id: ");
                m.append(decimal_string(id).as_str());
                Err(BridgeError::BadParams(m))
            },
        }
    }

    /// Drops breakpoint `at`, which the table holds at that position.
    fn remove_at(&mut self, at: usize)
        requires
            old(self).wf(),
            at < old(self)@.0.len(),
        ensures
            final(self).wf(),
            final(self)@.0 == old(self)@.0.remove(at as int),
            final(self)@.1 == old(self)@.1,
            final(self)@.2 == old(self)@.2,
    {
        let ghost before = self.bps@;
        let _ = self.bps.remove(at);
        proof {
            let e = self.bps@;
            assert(e == before.remove(at as int));
            assert forall|a: int, b: int| 0 <= a < b < e.len() implies e[a].0 < e[b].0 by {
                let a2 = if a < at { a } else { a + 1 };
                let b2 = if b < at { b } else { b + 1 };
                assert(e[a] == before[a2]);
                assert(e[b] == before[b2]);
            }
            assert forall|a: int| 0 <= a < e.len() implies e[a].0 < self.next_bp && end_fits(
                #[trigger] e[a].1,
            ) by {
                let a2 = if a < at { a } else { a + 1 };
                assert(e[a] == before[a2]);
            }
        }
    }

    /// Takes the backend's answer `resp` to the clear command of breakpoint `id` (see
    /// [`Self::clear_request`]), or the failure to get one. An id that the table does not hold
    /// is refused; `OK` or `E00` drop the breakpoint and give its id; any other answer, or a
    /// failure, is the answer and leaves the table as it was.
    pub fn clear_breakpoint(&mut self, id: u64, resp: BridgeResult<String>) -> (r: BridgeResult<u64>)
        requires
            old(self).wf(),
        ensures
            final(self).wf(),
            final(self)@.1 == old(self)@.1,
            final(self)@.2 == old(self)@.2,
            match index_of_id(old(self)@.0, id, 0) {
                None => r matches Err(BridgeError::BadParams(m)) && m@ == "unknown breakpoint id: "@
                    + decimal(id as nat) && final(self)@.0 == old(self)@.0,
                Some(_) => match resp {
                    Err(e) => r matches Err(x) && x == e && final(self)@.0 == old(self)@.0,
                    Ok(t) => if clear_answer_ok(t@) {
                        r == Ok::<u64, BridgeError>(id) && final(self)@.0 == without_id(
                            old(self)@.0,
                            id,
                        )
                    } else {
                        r matches Err(BridgeError::Emulator(m)) && m@
                            == "MAME breakpoint clear failed: "@ + t@ && final(self)@.0 == old(
                            self,
                        )@.0
                    },
                },
            },
    {
        proof {
            lemma_index_of_id(self@.0, id, 0);
        }
        let at = match self.find(id) {
            Some(i) => i,
            None => {
                let mut m = String::from_str("unknown breakpoint id: ");
                m.append(decimal_string(id).as_str());
                return Err(BridgeError::BadParams(m));
            },
        };
        let t = match resp {
            Ok(t) => t,
            Err(e) => return Err(e),
        };
        if !same_text(t.as_str(), "OK") && !same_text(t.as_str(), "E00") {
            let mut m = String::from_str("MAME breakpoint clear failed: ");
            m.append(t.as_str());
            return Err(BridgeError::Emulator(m));
        }
        self.remove_at(at);
        Ok(id)
    }

    /// The ids that clearing every breakpoint works through, in table order: the caller sends
    /// each one's clear command (see [`Self::clear_request`]) and hands the answers to
    /// [`Self::clear_all_breakpoints`].
    pub fn breakpoint_ids(&self) -> (ids: Vec<u64>)
        ensures
            ids@ == self@.0.map_values(|e: (u64, Breakpoint<S>)| e.0),
    {
        let mut ids: Vec<u64> = Vec::new();
        let mut i: usize = 0;
        while i < self.bps.len()
            invariant
                i <= self.bps.len(),
                ids@ == self@.0.take(i as int).map_values(|e: (u64, Breakpoint<S>)| e.0),
            decreases self.bps.len() - i,
        {
            ids.push(self.bps[i].0);
            proof {
                assert(self@.0.take(i + 1) =~= self@.0.take(i as int).push(self@.0[i as int]));
                assert(ids@ =~= self@.0.take(i + 1).map_values(|e: (u64, Breakpoint<S>)| e.0));
            }
            i = i + 1;
        }
        proof {
            assert(self@.0.take(self.bps.len() as int) =~= self@.0);
        }
        ids
    }

    /// Clears every breakpoint, the backend having answered `answers[i]` to the clear command
    /// of the `i`-th in table order: those answered `OK` or `E00` are dropped and their ids
    /// given, in order; the others stay (see [`clear_all_split`]).
    pub fn clear_all_breakpoints(&mut self, answers: Vec<BridgeResult<String>>) -> (cleared: Vec<u64>)
        requires
            old(self).wf(),
            answers.len() == old(self)@.0.len(),
        ensures
            final(self).wf(),
            cleared@ == clear_all_split(old(self)@.0, answers@).0,
            final(self)@.0 == clear_all_split(old(self)@.0, answers@).1,
            final(self)@.1 == old(self)@.1,
            final(self)@.2 == old(self)@.2,
    {
        let mut entries: Vec<(u64, Breakpoint<S>)> = Vec::new();
        std::mem::swap(&mut entries, &mut self.bps);
        let ghost es = entries@;
        let next = self.next_bp;
        let mut cleared: Vec<u64> = Vec::new();
        let mut kept: Vec<(u64, Breakpoint<S>)> = Vec::new();
        let mut j: usize = 0;
        proof {
            assert(es.take(0) =~= Seq::<(u64, Breakpoint<S>)>::empty());
        }
        for e in it: entries
            invariant
                es == it.seq(),
                j == it.index(),
                answers.len() == es.len(),
                (cleared@, kept@) == clear_all_split(es.take(j as int), answers@),
                table_wf(es, next),
                table_wf(kept@, next),
                j > 0 ==> forall|k: int| 0 <= k < kept@.len() ==> kept@[k].0 <= es[j - 1].0,
        {
            proof {
                assert(es.take(j + 1).drop_last() =~= es.take(j as int));
                assert(es.take(j + 1).last() == es[j as int]);
            }
            let ok = match &answers[j] {
                Ok(t) => same_text(t.as_str(), "OK") || same_text(t.as_str(), "E00"),
                Err(_) => false,
            };
            if ok {
                cleared.push(e.0);
            } else {
                let ghost k0 = kept@;
                kept.push(e);
                proof {
                    assert forall|a: int| 0 <= a < kept@.len() implies end_fits(
                        #[trigger] kept@[a].1,
                    ) && kept@[a].0 < next by {
                        if a < k0.len() {
                            assert(kept@[a] == k0[a]);
                        }
                    }
                    assert forall|a: int, b: int| 0 <= a < b < kept@.len() implies kept@[a].0
                        < kept@[b].0 by {
                        assert(kept@[a] == k0[a]);
                        if b < k0.len() {
                            assert(kept@[b] == k0[b]);
                        } else if j > 0 {
                            assert(es[j - 1].0 < es[j as int].0);
                        }
                    }
                }
            }
            proof {
                if j > 0 {
                    assert(es[j - 1].0 < es[j as int].0);
                }
            }
            j = j + 1;
        }
        proof {
            assert(es.take(es.len() as int) =~= es);
        }
        self.bps = kept;
        cleared
    }

    /// One row per breakpoint, in table order (see [`row_of`]).
    pub fn list_breakpoints(&self) -> (rows: Vec<BreakpointRow>)
        requires
            self.wf(),
        ensures
            rows@.len() == self@.0.len(),
            forall|k: int|
                0 <= k < rows@.len() ==> #[trigger] rows@[k] == row_of(self@.0[k].0, self@.0[k].1),
    {
        let mut rows: Vec<BreakpointRow> = Vec::new();
        let mut i: usize = 0;
        while i < self.bps.len()
            invariant
                i <= self.bps.len(),
                self.wf(),
                rows@.len() == i,
                forall|k: int|
                    0 <= k < i ==> #[trigger] rows@[k] == row_of(self@.0[k].0, self@.0[k].1),
            decreases self.bps.len() - i,
        {
            let id = self.bps[i].0;
            let bp = &self.bps[i].1;
            let row = match bp.kind {
                BreakpointKind::Reg => BreakpointRow::Register {
                    id,
                    register: clone_opt(&bp.register),
                    min: bp.min,
                    max: bp.max,
                    condition: clone_opt(&bp.condition),
                },
                kind => {
                    let start = match bp.addr {
                        Some(a) => a,
                        None => 0,
                    };
                    let size = match bp.size {
                        Some(z) => z,
                        None => 1,
                    };
                    proof {
                        assert(end_fits(self@.0[i as int].1));
                    }
                    let end = if size == 0 {
                        start
                    } else {
                        start + (size - 1)
                    };
                    BreakpointRow::Memory {
                        id,
                        kind,
                        start,
                        end,
                        condition: clone_opt(&bp.condition),
                    }
                },
            };
            rows.push(row);
            i = i + 1;
        }
        rows
    }

    /// Queues an event for polling.
    pub fn push_event(&mut self, key: EventKey, body: E)
        ensures
            final(self)@.0 == old(self)@.0,
            final(self)@.1 == old(self)@.1,
            final(self)@.2 == old(self)@.2.push(QueuedEvent { key, body }),
    {
        self.events.push(QueuedEvent { key, body });
    }

    /// Polls the queue for the breakpoint filter the request gave, or for the failure to read
    /// it, which is the answer and leaves the queue as it was (see [`Self::drain_events`]).
    pub fn poll_events(&mut self, saw_reset: bool, filter: BridgeResult<Option<u64>>) -> (out:
        BridgeResult<Vec<E>>)
        ensures
            match filter {
                Err(e) => out matches Err(x) && x == e && final(self)@ == old(self)@,
                Ok(f) => out matches Ok(v) && v@ == poll_split(old(self)@.2, saw_reset, f).0
                    && final(self)@.2 == poll_split(old(self)@.2, saw_reset, f).1 && final(self)@.0
                    == old(self)@.0 && final(self)@.1 == old(self)@.1,
            },
    {
        match filter {
            Ok(f) => Ok(self.drain_events(saw_reset, f)),
            Err(e) => Err(e),
        }
    }

    /// Polls the queue: after a reset (`saw_reset`) stale stops are dropped; with a `filter`
    /// only the events of that breakpoint are handed out and the rest stay queued; without one
    /// every kept event is handed out. Order is kept (see [`poll_split`]).
    pub fn drain_events(&mut self, saw_reset: bool, filter: Option<u64>) -> (out: Vec<E>)
        ensures
            out@ == poll_split(old(self)@.2, saw_reset, filter).0,
            final(self)@.2 == poll_split(old(self)@.2, saw_reset, filter).1,
            final(self)@.0 == old(self)@.0,
            final(self)@.1 == old(self)@.1,
    {
        let mut queued: Vec<QueuedEvent<E>> = Vec::new();
        std::mem::swap(&mut queued, &mut self.events);
        let ghost evs = queued@;
        let mut out: Vec<E> = Vec::new();
        let mut remaining: Vec<QueuedEvent<E>> = Vec::new();
        for ev in it: queued
            invariant
                evs == it.seq(),
                (out@, remaining@) == poll_split(evs.take(it.index() as int), saw_reset, filter),
        {
            proof {
                assert(evs.take(it.index() + 1).drop_last() =~= evs.take(it.index() as int));
            }
            let drop = saw_reset && ev.key.reset_stop;
            if !drop {
                let take = match filter {
                    Some(f) => match ev.key.breakpoint_id {
                        Some(b) => b == f,
                        None => false,
                    },
                    None => true,
                };
                if take {
                    out.push(ev.body);
                } else {
                    remaining.push(ev);
                }
            }
        }
        proof {
            assert(evs.take(evs.len() as int) =~= evs);
        }
        self.events = remaining;
        out
    }
}

proof fn lemma_index_of_absent<S>(entries: Seq<(u64, Breakpoint<S>)>, id: u64, from: int)
    requires
        0 <= from,
        forall|k: int| from <= k < entries.len() ==> entries[k].0 != id,
    ensures
        index_of_id(entries, id, from) is None,
    decreases entries.len() - from,
{
    if from < entries.len() {
        lemma_index_of_absent(entries, id, from + 1);
    }
}

proof fn lemma_index_of_at<S>(entries: Seq<(u64, Breakpoint<S>)>, id: u64, from: int, i: int)
    requires
        0 <= from <= i < entries.len(),
        entries[i].0 == id,
        forall|k: int| from <= k < i ==> entries[k].0 != id,
    ensures
        index_of_id(entries, id, from) == Some(i),
    decreases i - from,
{
    if from < i {
        lemma_index_of_at(entries, id, from + 1, i);
    }
}

/// Clearing a breakpoint undoes setting it: in a sound table, recording a breakpoint under the
/// next id and then dropping that id gives back the table as it was.
pub proof fn set_then_clear_restores<S>(entries: Seq<(u64, Breakpoint<S>)>, next: u64, bp: Breakpoint<S>)
    requires
        table_wf(entries, next),
    ensures
        without_id(entries.push((next, bp)), next) == entries,
{
    let e = entries.push((next, bp));
    assert forall|k: int| 0 <= k < entries.len() implies e[k].0 != next by {
        assert(e[k] == entries[k]);
    }
    lemma_index_of_at(e, next, 0, entries.len() as int);
    assert(e.remove(entries.len() as int) =~= entries);
}

/// Every breakpoint of a sound table has its own id.
pub proof fn ids_are_distinct<S>(entries: Seq<(u64, Breakpoint<S>)>, next: u64)
    requires
        table_wf(entries, next),
    ensures
        forall|i: int, j: int|
            0 <= i < entries.len() && 0 <= j < entries.len() && i != j ==> entries[i].0
                != entries[j].0,
{
    assert forall|i: int, j: int|
        0 <= i < entries.len() && 0 <= j < entries.len() && i != j implies entries[i].0
        != entries[j].0 by {
        if i < j {
            assert(entries[i].0 < entries[j].0);
        } else {
            assert(entries[j].0 < entries[i].0);
        }
    }
}

/// Dropping an id that the table does not hold leaves the table as it is.
pub proof fn clearing_absent_id_changes_nothing<S>(entries: Seq<(u64, Breakpoint<S>)>, id: u64)
    requires
        forall|k: int| 0 <= k < entries.len() ==> entries[k].0 != id,
    ensures
        without_id(entries, id) == entries,
{
    lemma_index_of_absent(entries, id, 0);
}

/// A poll without a filter hands out every kept event and leaves nothing queued.
pub proof fn unfiltered_poll_drains_queue<E>(evs: Seq<QueuedEvent<E>>, saw_reset: bool)
    ensures
        poll_split(evs, saw_reset, None).1.len() == 0,
    decreases evs.len(),
{
    if evs.len() > 0 {
        unfiltered_poll_drains_queue(evs.drop_last(), saw_reset);
    }
}

/// Without a reset no event is lost: every queued event is either handed out or stays queued.
pub proof fn poll_without_reset_loses_nothing<E>(evs: Seq<QueuedEvent<E>>, filter: Option<u64>)
    ensures
        poll_split(evs, false, filter).0.len() + poll_split(evs, false, filter).1.len()
            == evs.len(),
    decreases evs.len(),
{
    if evs.len() > 0 {
        poll_without_reset_loses_nothing(evs.drop_last(), filter);
    }
}

/// The listing gives back the kind and range that a breakpoint was set for: a memory breakpoint
/// of kind `p.kind` set for
/// offsets `start..=end` of a region (see [`plan_breakpoint`]) is listed from the region's base
/// plus `start` through its base plus the end offset; no end, or an end below the start, lists
/// the one byte at `start`.
pub proof fn listed_range_is_requested_range<S>(
    id: u64,
    g: Region,
    start: u64,
    end: Option<u64>,
    p: PendingPoint<S>,
    backend: String,
    backend_id: String,
)
    requires
        g.base + g.size <= u64::MAX,
        p.kind != BreakpointKind::Reg,
        start + span(start, end) <= g.size,
        p.addr == g.base + start,
        p.size == span(start, end),
    ensures
        row_of(id, recorded_point(p, backend, backend_id)) matches BreakpointRow::Memory {
            id: i,
            kind: k,
            start: a,
            end: b,
            condition: c,
        } && i == id && k == p.kind && a == g.base + start && b == g.base + end_offset(start, end)
            && c == nonempty(p.condition),
{
}

/// Clearing every breakpoint when the backend answers `OK` or `E00` for each clears every id,
/// in table order, and leaves the table empty.
pub proof fn clearing_all_with_every_answer_ok_empties_table<S>(
    entries: Seq<(u64, Breakpoint<S>)>,
    answers: Seq<BridgeResult<String>>,
)
    requires
        forall|i: int| 0 <= i < entries.len() ==> clears(#[trigger] answers[i]),
    ensures
        clear_all_split(entries, answers).0 == entries.map_values(|e: (u64, Breakpoint<S>)| e.0),
        clear_all_split(entries, answers).1.len() == 0,
    decreases entries.len(),
{
    if entries.len() > 0 {
        let i = entries.len() - 1;
        assert(clears(answers[i]));
        clearing_all_with_every_answer_ok_empties_table(entries.drop_last(), answers);
        assert(entries.map_values(|e: (u64, Breakpoint<S>)| e.0) =~= entries.drop_last().map_values(
            |e: (u64, Breakpoint<S>)| e.0,
        ).push(entries[i].0));
    } else {
        assert(entries.map_values(|e: (u64, Breakpoint<S>)| e.0) =~= Seq::<u64>::empty());
    }
}

/// Clearing every breakpoint loses none: each is either cleared or stays.
pub proof fn clearing_all_loses_nothing<S>(
    entries: Seq<(u64, Breakpoint<S>)>,
    answers: Seq<BridgeResult<String>>,
)
    ensures
        clear_all_split(entries, answers).0.len() + clear_all_split(entries, answers).1.len()
            == entries.len(),
    decreases entries.len(),
{
    if entries.len() > 0 {
        clearing_all_loses_nothing(entries.drop_last(), answers);
    }
}

proof fn lemma_failed_clear_keeps<S>(
    entries: Seq<(u64, Breakpoint<S>)>,
    answers: Seq<BridgeResult<String>>,
    i: int,
)
    requires
        0 <= i < entries.len(),
        !clears(answers[i]),
    ensures
        clear_all_split(entries, answers).1.contains(entries[i]),
    decreases entries.len(),
{
    let last = entries.len() - 1;
    let (c, k) = clear_all_split(entries.drop_last(), answers);
    if i == last {
        assert(k.push(entries[i])[k.len() as int] == entries[i]);
    } else {
        assert(entries.drop_last()[i] == entries[i]);
        lemma_failed_clear_keeps(entries.drop_last(), answers, i);
        let j = choose|j: int| 0 <= j < k.len() && k[j] == entries[i];
        if !clears(answers[last]) {
            assert(k.push(entries[last])[j] == entries[i]);
        }
    }
}

/// A breakpoint stays as it was set, and so stays listed with the same row (see [`row_of`]),
/// until it is cleared: recording another breakpoint under the next id, clearing another id,
/// or clearing every breakpoint with an answer that fails for it keeps its entry.
pub proof fn breakpoint_outlives_other_changes<S>(
    entries: Seq<(u64, Breakpoint<S>)>,
    next: u64,
    i: int,
    bp: Breakpoint<S>,
    other: u64,
    answers: Seq<BridgeResult<String>>,
)
    requires
        table_wf(entries, next),
        0 <= i < entries.len(),
        other != entries[i].0,
    ensures
        entries.push((next, bp)).contains(entries[i]),
        without_id(entries, other).contains(entries[i]),
        !clears(answers[i]) ==> clear_all_split(entries, answers).1.contains(entries[i]),
{
    assert(entries.push((next, bp))[i] == entries[i]);
    lemma_index_of_id(entries, other, 0);
    match index_of_id(entries, other, 0) {
        Some(j) => {
            let w = entries.remove(j);
            if i < j {
                assert(w[i] == entries[i]);
            } else {
                assert(w[i - 1] == entries[i]);
            }
        },
        None => {},
    }
    if !clears(answers[i]) {
        lemma_failed_clear_keeps(entries, answers, i);
    }
}

/// Every kind that the refusal message lists is accepted, as the kind of that name, and nothing
/// else is: `exec`, `write`, `read` and `access` name the memory kinds whose point type codes
/// are `0`, `2`, `3` and `4`; a name is accepted exactly when it is the name of a memory kind.
pub proof fn listed_kinds_are_accepted()
    ensures
        kind_named("exec"@) == Some(BreakpointKind::Exec),
        kind_named("write"@) == Some(BreakpointKind::Write),
        kind_named("read"@) == Some(BreakpointKind::Read),
        kind_named("access"@) == Some(BreakpointKind::Access),
        kind_code(BreakpointKind::Exec) == seq!['0'],
        kind_code(BreakpointKind::Write) == seq!['2'],
        kind_code(BreakpointKind::Read) == seq!['3'],
        kind_code(BreakpointKind::Access) == seq!['4'],
        forall|k: BreakpointKind| k != BreakpointKind::Reg ==> kind_named(#[trigger] kind_name(k)) == Some(k),
        forall|t: Seq<char>|
            #[trigger] kind_named(t) matches Some(k) ==> k != BreakpointKind::Reg && kind_name(k) == t,
{
    reveal_strlit("exec");
    reveal_strlit("write");
    reveal_strlit("read");
    reveal_strlit("access");
    reveal_strlit("reg");
    assert("read"@[0] != "exec"@[0]);
    assert("read"@[0] != "write"@[0]);
    assert("write"@[0] != "exec"@[0]);
    assert("access"@[0] != "exec"@[0]);
    assert("access"@[0] != "write"@[0]);
    assert("access"@[0] != "read"@[0]);
}

/// A listing row shows the breakpoint it lists: a memory breakpoint's row carries its id, its
/// kind, its condition and the bus range from its address through its last byte; a register
/// point's row carries its id, register, bounds and condition.
pub proof fn rows_show_their_breakpoint<S>(id: u64, bp: Breakpoint<S>)
    requires
        end_fits(bp),
    ensures
        bp.kind != BreakpointKind::Reg ==> (row_of(id, bp) matches BreakpointRow::Memory {
            id: i,
            kind: k,
            start: a,
            end: b,
            condition: c,
        } && i == id && k == bp.kind && a == or_else(bp.addr, 0) && c == bp.condition && (or_else(
            bp.size,
            1,
        ) >= 1 ==> b == or_else(bp.addr, 0) + or_else(bp.size, 1) - 1)),
        bp.kind == BreakpointKind::Reg ==> (row_of(id, bp) matches BreakpointRow::Register {
            id: i,
            register: g,
            min: lo,
            max: hi,
            condition: c,
        } && i == id && g == bp.register && lo == bp.min && hi == bp.max && c == bp.condition),
{
}

/// How many of `evs` are not stale stops.
pub open spec fn live_count<E>(evs: Seq<QueuedEvent<E>>) -> nat
    decreases evs.len(),
{
    if evs.len() == 0 {
        0
    } else {
        live_count(evs.drop_last()) + if evs.last().key.reset_stop {
            0nat
        } else {
            1nat
        }
    }
}

/// After a reset no stale stop survives a poll, whatever the filter: none stays queued, and
/// the events handed out and those left queued are exactly the others, so none of them is
/// lost either.
pub proof fn poll_after_reset_drops_stale_stops<E>(evs: Seq<QueuedEvent<E>>, filter: Option<u64>)
    ensures
        forall|i: int|
            0 <= i < poll_split(evs, true, filter).1.len() ==> !(#[trigger] poll_split(
                evs,
                true,
                filter,
            ).1[i]).key.reset_stop,
        poll_split(evs, true, filter).0.len() + poll_split(evs, true, filter).1.len() == live_count(
            evs,
        ),
    decreases evs.len(),
{
    if evs.len() > 0 {
        poll_after_reset_drops_stale_stops(evs.drop_last(), filter);
        let (d, r) = poll_split(evs.drop_last(), true, filter);
        let e = evs.last();
        if kept(e, true) && !selected(e, filter) {
            assert forall|i: int| 0 <= i < r.push(e).len() implies !(#[trigger] r.push(e)[i]).key.reset_stop by {
                if i < r.len() {
                    assert(r.push(e)[i] == r[i]);
                }
            }
        }
    }
}

/// A poll without a filter after a reset hands out every event but the stale stops.
pub proof fn unfiltered_poll_after_reset_hands_out_the_live_events<E>(evs: Seq<QueuedEvent<E>>)
    ensures
        poll_split(evs, true, None).0.len() == live_count(evs),
        poll_split(evs, true, None).1.len() == 0,
{
    poll_after_reset_drops_stale_stops(evs, None);
    unfiltered_poll_drains_queue(evs, true);
}

/// A request that leaves out its kind asks for an execution breakpoint on physical memory that
/// pauses the machine when hit; whatever it gives is taken as given.
pub proof fn request_defaults(params: BreakpointParams)
    ensures
        params.kind is None ==> kind_named(params.kind_or_default()) == Some(BreakpointKind::Exec),
        params.memory_type is None ==> params.memory_type_or_default() == "physical"@,
        params.pause_on_hit is None ==> params.pause_or_default(),
        params.kind matches Some(k) ==> params.kind_or_default() == k@,
        params.memory_type matches Some(m) ==> params.memory_type_or_default() == m@,
        params.pause_on_hit matches Some(b) ==> params.pause_or_default() == b,
{
    listed_kinds_are_accepted();
}

/// A poll leaves queued only events that it was not asked for: with a filter, every event that
/// stays belongs to another breakpoint (or to none) and, after a reset, is no stale stop;
/// without a filter nothing stays. Without a reset, every queued event is either handed out or
/// stays.
pub proof fn poll_leaves_only_unrequested_events<E>(
    evs: Seq<QueuedEvent<E>>,
    saw_reset: bool,
    filter: Option<u64>,
)
    ensures
        forall|i: int|
            0 <= i < poll_split(evs, saw_reset, filter).1.len() ==> ({
                let ev = #[trigger] poll_split(evs, saw_reset, filter).1[i];
                &&& filter matches Some(f) && ev.key.breakpoint_id != Some(f)
                &&& !(saw_reset && ev.key.reset_stop)
            }),
    decreases evs.len(),
{
    if evs.len() > 0 {
        poll_leaves_only_unrequested_events(evs.drop_last(), saw_reset, filter);
        let (d, r) = poll_split(evs.drop_last(), saw_reset, filter);
        let e = evs.last();
        if kept(e, saw_reset) && !selected(e, filter) {
            assert forall|i: int| 0 <= i < r.push(e).len() implies ({
                let ev = #[trigger] r.push(e)[i];
                &&& filter matches Some(f) && ev.key.breakpoint_id != Some(f)
                &&& !(saw_reset && ev.key.reset_stop)
            }) by {
                if i < r.len() {
                    assert(r.push(e)[i] == r[i]);
                }
            }
        }
    }
}

} // verus!
