//! Rendering of diagnostic lines: a matched event with its command, or
//! an unmatched event as a ready-to-paste rule template, always in the
//! form `if type=T code=C value=V then: ...`.

use vstd::prelude::*;

use crate::event::Event;

verus! {

/// The decimal digits of a nonnegative integer, most significant first.
pub open spec fn u_dec(n: nat) -> Seq<u8>
    decreases n,
{
    if n < 10 {
        seq![(48 + n) as u8]
    } else {
        u_dec(n / 10).push((48 + n % 10) as u8)
    }
}

/// The decimal rendering of a signed integer: a minus sign before the
/// digits of the magnitude when negative.
pub open spec fn i_dec(v: int) -> Seq<u8> {
    if v < 0 {
        seq![45u8] + u_dec((-v) as nat)
    } else {
        u_dec(v as nat)
    }
}

/// The bytes of `if type=`.
pub open spec fn lit_if_type() -> Seq<u8> {
    seq![105u8, 102u8, 32u8, 116u8, 121u8, 112u8, 101u8, 61u8]
}

/// The bytes of ` code=`.
pub open spec fn lit_code() -> Seq<u8> {
    seq![32u8, 99u8, 111u8, 100u8, 101u8, 61u8]
}

/// The bytes of ` value=`.
pub open spec fn lit_value() -> Seq<u8> {
    seq![32u8, 118u8, 97u8, 108u8, 117u8, 101u8, 61u8]
}

/// The bytes of ` then: `.
pub open spec fn lit_then() -> Seq<u8> {
    seq![32u8, 116u8, 104u8, 101u8, 110u8, 58u8, 32u8]
}

/// The diagnostic line for an event and a command: the event's exact
/// field values in rule form, then the command text.
pub open spec fn event_line(e: Event, cmd: Seq<u8>) -> Seq<u8> {
    lit_if_type() + u_dec(e.type_ as nat) + lit_code() + u_dec(e.code as nat) + lit_value() + i_dec(
        e.value as int,
    ) + lit_then() + cmd
}

/// Appends the decimal digits of `n`.
pub fn push_u32_dec(out: &mut Vec<u8>, n: u32)
    ensures
        final(out)@ == old(out)@ + u_dec(n as nat),
    decreases n,
{
    if n < 10 {
        out.push(48 + n as u8);
        proof {
            assert(out@ =~= old(out)@ + u_dec(n as nat));
        }
    } else {
        push_u32_dec(out, n / 10);
        out.push(48 + (n % 10) as u8);
        proof {
            assert((n / 10) as nat == (n as nat) / 10);
            assert((n % 10) as nat == (n as nat) % 10);
            assert(out@ =~= old(out)@ + u_dec(n as nat));
        }
    }
}

/// Appends the decimal rendering of `v`, minus sign included.
pub fn push_i32_dec(out: &mut Vec<u8>, v: i32)
    ensures
        final(out)@ == old(out)@ + i_dec(v as int),
{
    if v < 0 {
        out.push(45);
        let m: u32 = if v == -2147483648i32 {
            2147483648u32
        } else {
            (-v) as u32
        };
        proof {
            assert(m as nat == (-(v as int)) as nat);
        }
        push_u32_dec(out, m);
        proof {
            assert(out@ =~= old(out)@ + i_dec(v as int));
        }
    } else {
        push_u32_dec(out, v as u32);
    }
}

/// Appends every byte of `src`.
fn push_bytes(out: &mut Vec<u8>, src: &Vec<u8>)
    ensures
        final(out)@ == old(out)@ + src@,
{
    let mut i: usize = 0;
    while i < src.len()
        invariant
            i <= src@.len(),
            out@ == old(out)@ + src@.subrange(0, i as int),
        decreases src@.len() - i,
    {
        out.push(src[i]);
        i = i + 1;
        proof {
            assert(out@ =~= old(out)@ + src@.subrange(0, i as int));
        }
    }
    proof {
        assert(out@ =~= old(out)@ + src@);
    }
}

/// Renders the diagnostic line for an event and a command: on a match
/// the rule form with the command about to run, and for an unmatched
/// event the same form with a placeholder command makes a template a
/// configuration author can paste, using the exact field values of the
/// event actually observed.
pub fn render_event_line(e: &Event, cmd: &Vec<u8>) -> (r: Vec<u8>)
    ensures
        r@ == event_line(*e, cmd@),
{
    let mut out: Vec<u8> = Vec::new();
    out.push(105);
    out.push(102);
    out.push(32);
    out.push(116);
    out.push(121);
    out.push(112);
    out.push(101);
    out.push(61);
    proof {
        assert(out@ =~= lit_if_type());
    }
    push_u32_dec(&mut out, e.type_ as u32);
    let ghost s1 = lit_if_type() + u_dec(e.type_ as nat);
    proof {
        assert(out@ == s1);
    }
    out.push(32);
    out.push(99);
    out.push(111);
    out.push(100);
    out.push(101);
    out.push(61);
    let ghost s2 = s1 + lit_code();
    proof {
        assert(out@ =~= s2);
    }
    push_u32_dec(&mut out, e.code as u32);
    let ghost s3 = s2 + u_dec(e.code as nat);
    proof {
        assert(out@ == s3);
    }
    out.push(32);
    out.push(118);
    out.push(97);
    out.push(108);
    out.push(117);
    out.push(101);
    out.push(61);
    let ghost s4 = s3 + lit_value();
    proof {
        assert(out@ =~= s4);
    }
    push_i32_dec(&mut out, e.value);
    let ghost s5 = s4 + i_dec(e.value as int);
    proof {
        assert(out@ == s5);
    }
    out.push(32);
    out.push(116);
    out.push(104);
    out.push(101);
    out.push(110);
    out.push(58);
    out.push(32);
    let ghost s6 = s5 + lit_then();
    proof {
        assert(out@ =~= s6);
    }
    push_bytes(&mut out, cmd);
    proof {
        assert(out@ == s6 + cmd@);
        assert(out@ =~= event_line(*e, cmd@));
    }
    out
}

} // verus!
