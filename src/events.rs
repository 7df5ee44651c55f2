//! The event log: a fixed-capacity ring of recent messages, newest first,
//! kept in a `BoundedVecDeque`.
use crate::pos::Pos;
use bounded_vec_deque::BoundedVecDeque;
use vstd::prelude::*;

verus! {

/// Capacity of the event log.
pub const LOG_CAPACITY: usize = 8;

/// Capacity of the recent-position trail.
pub const TRAIL_CAPACITY: usize = 300;

/// What a log entry reports.
#[derive(Debug, Clone, Copy, PartialEq, Eq, Structural)]
pub enum EventType {
    DamageDealt,
    DamageTaken,
    Teleport,
    XP,
}

#[verifier::external_type_specification]
#[verifier::external_body]
#[verifier::reject_recursive_types(T)]
pub struct ExBoundedVecDeque<T>(BoundedVecDeque<T>);

/// The entries of a log, front (newest) first.
pub uninterp spec fn log_entries(q: BoundedVecDeque<(String, EventType)>) -> Seq<(String, EventType)>;

/// The `max_len` a log was made with.
pub uninterp spec fn log_bound(q: BoundedVecDeque<(String, EventType)>) -> nat;

/// The positions a trail holds, front first.
pub uninterp spec fn trail_of(q: BoundedVecDeque<Pos>) -> Seq<Pos>;

/// The `max_len` a trail was made with.
pub uninterp spec fn trail_bound(q: BoundedVecDeque<Pos>) -> nat;

/// What pushing `v` at the front of a log holding `s` under bound `n` leaves:
/// the oldest entry drops out when the log is full.
pub open spec fn pushed_front(s: Seq<(String, EventType)>, n: nat, v: (String, EventType)) -> Seq<(String, EventType)> {
    if s.len() >= n {
        seq![v] + s.drop_last()
    } else {
        seq![v] + s
    }
}

/// The character of decimal digit `n`.
pub open spec fn digit(n: nat) -> char {
    (('0' as u8) + n) as char
}

/// The decimal digits of `n`, most significant first.
pub open spec fn digits(n: nat) -> Seq<char>
    decreases n,
{
    if n < 10 {
        seq![digit(n)]
    } else {
        digits(n / 10).push(digit(n % 10))
    }
}

/// `d` written in decimal, with a leading minus sign when negative.
pub open spec fn decimal(d: int) -> Seq<char> {
    if d < 0 {
        seq!['-'] + digits((-d) as nat)
    } else {
        digits(d as nat)
    }
}

/// The log line for a strike that dealt `d`.
pub open spec fn strike_line(d: int) -> Seq<char> {
    "You attacked an enemy for "@ + decimal(d) + " damage"@
}

/// The log line for an enemy hit of `d`.
pub open spec fn hit_line(d: int) -> Seq<char> {
    "Ghost hits you for "@ + decimal(d) + " damage"@
}

/// Relies on std's `format!` with `{}` on an `i32`: the number in decimal,
/// with a minus sign when negative.
#[verifier::external_body]
pub(crate) fn strike_text(d: i32) -> (r: String)
    ensures
        r@ == strike_line(d as int),
{
    format!("You attacked an enemy for {} damage", d)
}

/// Relies on std's `format!` with `{}` on an `i32`: the number in decimal,
/// with a minus sign when negative.
#[verifier::external_body]
pub(crate) fn hit_text(d: i32) -> (r: String)
    ensures
        r@ == hit_line(d as int),
{
    format!("Ghost hits you for {} damage", d)
}

/// Relies on `BoundedVecDeque::new`: an empty deque with the given `max_len`
/// (it reserves `max_len` slots, kept small here).
#[verifier::external_body]
pub(crate) fn new_log(max_len: usize) -> (r: BoundedVecDeque<(String, EventType)>)
    requires
        max_len <= TRAIL_CAPACITY,
    ensures
        log_entries(r) == Seq::<(String, EventType)>::empty(),
        log_bound(r) == max_len,
{
    BoundedVecDeque::new(max_len)
}

/// Relies on `BoundedVecDeque::push_front`: with a non-zero `max_len`, a full
/// deque first gives up its back element (returned), then `v` goes in front.
#[verifier::external_body]
pub(crate) fn log_push_front(
    q: &mut BoundedVecDeque<(String, EventType)>,
    v: (String, EventType),
) -> (r: Option<(String, EventType)>)
    requires
        log_bound(*old(q)) > 0,
        log_entries(*old(q)).len() <= log_bound(*old(q)),
    ensures
        log_entries(*final(q)) == pushed_front(log_entries(*old(q)), log_bound(*old(q)), v),
        log_bound(*final(q)) == log_bound(*old(q)),
        r == if log_entries(*old(q)).len() >= log_bound(*old(q)) {
            Some(log_entries(*old(q)).last())
        } else {
            None
        },
{
    q.push_front(v)
}

/// Relies on `BoundedVecDeque::clear`: no entries remain, `max_len` is kept.
#[verifier::external_body]
pub(crate) fn log_clear(q: &mut BoundedVecDeque<(String, EventType)>)
    ensures
        log_entries(*final(q)) == Seq::<(String, EventType)>::empty(),
        log_bound(*final(q)) == log_bound(*old(q)),
{
    q.clear()
}

/// Relies on `BoundedVecDeque::new`: an empty trail with the given `max_len`
/// (it reserves `max_len` slots, kept small here).
#[verifier::external_body]
pub(crate) fn new_trail(max_len: usize) -> (r: BoundedVecDeque<Pos>)
    requires
        max_len <= TRAIL_CAPACITY,
    ensures
        trail_of(r) == Seq::<Pos>::empty(),
        trail_bound(r) == max_len,
{
    BoundedVecDeque::new(max_len)
}

} // verus!
