//! Memory predicates written on the command line as `type:address:length:op:value`.
use vstd::prelude::*;
use crate::numparse::{digits_number, number_literal, parse_num_str};
use crate::text::{chars_of, split_fields, split_on};

verus! {

/// A condition on a value in emulator memory.
pub struct Predicate {
    /// The memory region the address lies in (`wram`, `vram`, ...), as written.
    pub memory_type: String,
    pub address: u64,
    /// How many bytes the value spans.
    pub length: u64,
    /// The comparison, as written (`eq`, ...).
    pub op: String,
    pub value: u64,
}

/// What `parse_predicate` gives for the text `s`: five `:`-separated fields, of which the address
/// and the value are number literals (hexadecimal allowed) and the length is decimal.
pub open spec fn predicate_fields(s: Seq<char>) -> Option<(Seq<char>, u64, u64, Seq<char>, u64)> {
    let f = split_fields(s, ':');
    if f.len() == 5 {
        match (number_literal(f[1]), digits_number(f[2], 10), number_literal(f[4])) {
            (Some(a), Some(l), Some(v)) => Some((f[0], a, l, f[3], v)),
            _ => None,
        }
    } else {
        None
    }
}

/// Parses `type:address:length:op:value` (see [`predicate_fields`]).
pub fn parse_predicate(s: &str) -> (r: Result<Predicate, String>)
    ensures
        match predicate_fields(s@) {
            Some((t, a, l, o, v)) => r matches Ok(p) && p.memory_type@ == t && p.address == a
                && p.length == l && p.op@ == o && p.value == v,
            None => r matches Err(m) && m@ == (if split_fields(s@, ':').len() != 5 {
                "predicate must be type:address:length:op:value: "@
            } else {
                "invalid number in predicate: "@
            }) + s@,
        },
{
    let v = chars_of(s);
    let f = split_on(&v, ':');
    if f.len() != 5 {
        let mut msg = String::from_str("predicate must be type:address:length:op:value: ");
        msg.append(s);
        return Err(msg);
    }
    let address = parse_num_str(s.substring_char(f[1].0, f[1].1));
    let length = crate::numparse::parse_decimal(s.substring_char(f[2].0, f[2].1));
    let value = parse_num_str(s.substring_char(f[4].0, f[4].1));
    match (address, length, value) {
        (Ok(address), Ok(length), Ok(value)) => {
            let memory_type = String::from_str(s.substring_char(f[0].0, f[0].1));
            let op = String::from_str(s.substring_char(f[3].0, f[3].1));
            Ok(Predicate { memory_type, address, length, op, value })
        },
        _ => {
            let mut msg = String::from_str("invalid number in predicate: ");
            msg.append(s);
            Err(msg)
        },
    }
}

} // verus!
