//! Laws of the protocol's numbers, of rejections, of transformed payloads and of spans.

use vstd::prelude::*;

use crate::decision::{Decision, DecisionResult, DecisionSourceError, DecisionSourceErrorKind};
use crate::gate;
use crate::grpc;
use crate::sweep;
use crate::sweep::Sweeper;
use crate::time;
use crate::time::{Duration, Instant, MAX_SPAN_NANOS};
use crate::tonic_source;
use crate::transform;

verus! {

/// The protocol has three numbers for decisions: none, allowed and denied. No other number stands
/// for anything.
pub proof fn three_numbers_stand_for_decisions(state: i32)
    ensures
        tonic_source::spec_decision(state) == Some(Some(Decision::Allowed)) <==> state == 1,
        tonic_source::spec_decision(state) == Some(Some(Decision::Denied)) <==> state == 2,
        tonic_source::spec_decision(state) == Some(None::<Decision>) <==> state == 0,
        tonic_source::spec_decision(state) is None <==> state < 0 || state > 2,
{
}

/// A gRPC failure may be retried unless the authority says that this very request cannot succeed.
/// Cancellation, deadlines, exhaustion, aborts, internal and unknown failures and unavailability may
/// pass.
pub proof fn a_grpc_failure_may_be_retried_unless_it_is_about_the_request(code: i32)
    requires
        0 <= code <= 16,
    ensures
        tonic_source::permanent_code(code) <==> {
            &&& code != 0
            &&& code != 1
            &&& code != 2
            &&& code != 4
            &&& code != 6
            &&& code != 8
            &&& code != 9
            &&& code != 10
            &&& code != 11
            &&& code != 13
            &&& code != 14
        },
{
}

/// A protocol violation is a failure of its own kind with the text that is given.
pub proof fn a_protocol_violation_is_a_wire_failure<T>(
    result: Result<T, DecisionSourceError>,
    text: Seq<char>,
)
    requires
        tonic_source::wire_failure(result, text),
    ensures
        result is Err,
        result->Err_0.spec_kind() == DecisionSourceErrorKind::Wire,
        result->Err_0.text() == text,
{
}

/// A lookup without an answer is a transient failure with the text that is given.
pub proof fn a_lookup_without_an_answer_is_transient<P>(
    result: Result<DecisionResult<P>, DecisionSourceError>,
    text: Seq<char>,
)
    requires
        gate::transient(result, text),
    ensures
        result is Err,
        result->Err_0.spec_kind() == DecisionSourceErrorKind::Transient,
        result->Err_0.text() == text,
{
}

/// Number that decimal digits in ASCII stand for.
pub open spec fn decimal_value(digits: Seq<u8>) -> int
    decreases digits.len(),
{
    if digits.len() == 0 {
        0
    } else {
        10 * decimal_value(digits.drop_last()) + (digits.last() - 48)
    }
}

/// A gRPC code is written in decimal digits that stand for it, without a leading zero.
pub proof fn a_code_is_written_in_decimal(code: i32)
    requires
        0 <= code <= 16,
    ensures
        decimal_value(grpc::code_digits(code)) == code,
        forall|i: int|
            0 <= i < grpc::code_digits(code).len() ==> 48 <= #[trigger] grpc::code_digits(code)[i]
                <= 57,
        grpc::code_digits(code).len() > 1 ==> grpc::code_digits(code)[0] != 48,
{
    let digits = grpc::code_digits(code);
    reveal_with_fuel(decimal_value, 3);
    if code < 10 {
        assert(digits.drop_last() =~= Seq::<u8>::empty());
    } else {
        assert(digits.drop_last() =~= seq![49u8]);
        assert(seq![49u8].drop_last() =~= Seq::<u8>::empty());
    }
}

/// Value of a hexadecimal digit in ASCII.
pub open spec fn hex_value(digit: u8) -> int {
    if digit <= 57 {
        digit - 48
    } else {
        digit - 55
    }
}

/// The form of a byte in a status message is printable ASCII without spaces and stands for that byte
/// alone: the byte itself, or a percent sign and its two hexadecimal digits. A percent sign always
/// starts an escape.
pub proof fn an_escape_stands_for_its_byte(byte: u8, i: int)
    ensures
        ({
            let form = grpc::escape_byte(byte);
            &&& form == seq![byte] && byte != 0x25 || {
                &&& form.len() == 3
                &&& form[0] == 0x25
                &&& 16 * hex_value(form[1]) + hex_value(form[2]) == byte
            }
            &&& 0 <= i < form.len() ==> 0x21 <= form[i] <= 0x7e
        }),
{
}

/// Bytes are escaped one by one: the form of two runs of bytes is the forms of both in a row.
pub proof fn bytes_are_escaped_one_by_one(first: Seq<u8>, second: Seq<u8>)
    ensures
        grpc::escape_bytes(first + second) == grpc::escape_bytes(first) + grpc::escape_bytes(
            second,
        ),
        second.len() == 1 ==> grpc::escape_bytes(second) == grpc::escape_byte(second[0]),
    decreases second.len(),
{
    if second.len() == 0 {
        assert(first + second =~= first);
        assert(grpc::escape_bytes(first) + grpc::escape_bytes(second) =~= grpc::escape_bytes(
            first,
        ));
    } else {
        let rest = second.drop_last();
        bytes_are_escaped_one_by_one(first, rest);
        assert((first + second).drop_last() =~= first + rest);
        assert((first + second).last() == second.last());
        assert((grpc::escape_bytes(first) + grpc::escape_bytes(rest)) + grpc::escape_byte(
            second.last(),
        ) =~= grpc::escape_bytes(first) + (grpc::escape_bytes(rest) + grpc::escape_byte(
            second.last(),
        )));
        if second.len() == 1 {
            assert(rest =~= Seq::<u8>::empty());
            assert(grpc::escape_bytes(rest) + grpc::escape_byte(second.last())
                =~= grpc::escape_byte(second[0]));
        }
    }
}

/// A status is its code, and its message where it has one; a response that carries nothing but a
/// status says besides that it is gRPC.
pub proof fn a_status_is_its_code_and_message(code: i32, message: Seq<char>)
    ensures
        ({
            let fields = grpc::status_fields(code, message);
            let response = grpc::response_fields(code, message);
            &&& fields[0] == ("grpc-status"@, grpc::code_digits(code))
            &&& message.len() == 0 ==> fields.len() == 1
            &&& message.len() > 0 ==> fields.len() == 2 && fields[1] == (
                "grpc-message"@,
                grpc::escape_bytes(vstd::utf8::encode_utf8(message)),
            )
            &&& response.len() == fields.len() + 1
            &&& response[response.len() - 1] == (
                "content-type"@,
                vstd::utf8::encode_utf8("application/grpc"@),
            )
            &&& forall|i: int| 0 <= i < fields.len() ==> #[trigger] response[i] == fields[i]
        }),
{
}

/// A transformed payload lives for its lifetime from the start of the transformation, and no longer
/// than the answer that it came with: at every instant the cap lets through exactly what both let
/// through. The longest lifetime adds no cap.
pub proof fn a_transformed_payload_lives_within_both_caps(
    valid_until: Option<Instant>,
    started: Instant,
    lifetime: Duration,
    clock_end: Instant,
    now: Instant,
)
    requires
        !transform::lifetime_overflows(started, lifetime, clock_end),
    ensures
        ({
            let cap = transform::transformed_cap(valid_until, started, lifetime);
            let within = |end: Option<Instant>| end is None || now.nanos < end->0.nanos;
            within(cap) <==> within(valid_until) && (lifetime.nanos == MAX_SPAN_NANOS || now.nanos
                < started.nanos + lifetime.nanos)
        }),
{
}

/// A lifetime is refused exactly where it is finite and ends beyond the clock.
pub proof fn a_lifetime_overflows_where_the_clock_ends(
    started: Instant,
    lifetime: Duration,
    clock_end: Instant,
)
    ensures
        transform::lifetime_overflows(started, lifetime, clock_end) <==> lifetime.nanos
            != MAX_SPAN_NANOS && clock_end.nanos < started.nanos + lifetime.nanos,
{
}

/// The earlier of two instants is one of them and not later than either; a missing one never comes.
pub proof fn the_earlier_instant_comes_first(first: Option<Instant>, second: Option<Instant>)
    ensures
        ({
            let earlier = time::spec_earlier(first, second);
            &&& earlier == first || earlier == second
            &&& earlier is None <==> first is None && second is None
            &&& first matches Some(at) ==> earlier->0.nanos <= at.nanos
            &&& second matches Some(at) ==> earlier->0.nanos <= at.nanos
        }),
{
}

/// The smaller of two numbers is one of them and exceeds neither.
pub proof fn the_least_exceeds_neither(a: int, b: int)
    ensures
        time::least(a, b) == a || time::least(a, b) == b,
        time::least(a, b) <= a,
        time::least(a, b) <= b,
{
}

/// What is left of `a` after `b` is never negative, and with `b` makes up `a` where `b` fits in.
pub proof fn what_is_left_makes_up_the_whole(a: int, b: int)
    ensures
        time::monus(a, b) >= 0,
        b <= a ==> time::monus(a, b) + b == a,
        a < b ==> time::monus(a, b) == 0,
{
}

/// The next sweep looks at every number met since the last one and at every entry that it left, and
/// at no other.
pub proof fn a_sweep_looks_at_every_number(sweeper: Sweeper, number: u64)
    ensures
        sweeper.candidates().contains(number) <==> {
            ||| sweeper.kept@.contains(number)
            ||| sweeper.unswept <= number <= sweeper.largest
        },
{
    let fresh = sweep::numbers(sweeper.unswept as int, sweeper.largest as int);
    let all = sweeper.candidates();
    if sweeper.kept@.contains(number) {
        let i = choose|i: int| 0 <= i < sweeper.kept@.len() && sweeper.kept@[i] == number;
        assert(all[i] == number);
    }
    if sweeper.unswept <= number <= sweeper.largest {
        let i = number - sweeper.unswept;
        assert(fresh[i] == number);
        assert(all[sweeper.kept@.len() + i] == number);
    }
    if all.contains(number) {
        let i = choose|i: int| 0 <= i < all.len() && all[i] == number;
        if i < sweeper.kept@.len() {
            assert(sweeper.kept@[i] == number);
        } else {
            assert(fresh[i - sweeper.kept@.len()] == number);
        }
    }
}

} // verus!
