//! The option that pins a server's identity, among the arguments of a program.

use crate::text;
use vstd::prelude::*;

verus! {

/// The option, which its value follows.
pub const FINGERPRINT_OPTION: &'static str = "--expect-server-fingerprint";

/// The first place at which `args` hold `option`, or their length.
pub open spec fn option_at(args: Seq<String>, option: Seq<char>) -> int
    decreases args.len(),
{
    if args.len() == 0 {
        0
    } else if args[0]@ == option {
        0
    } else {
        1 + option_at(args.drop_first(), option)
    }
}

proof fn lemma_option_at(args: Seq<String>, option: Seq<char>, i: int)
    requires
        0 <= i <= args.len(),
        forall|j: int| 0 <= j < i ==> (#[trigger] args[j])@ != option,
        i < args.len() ==> args[i]@ == option,
    ensures
        option_at(args, option) == i,
    decreases i,
{
    if i > 0 {
        assert(args[0]@ != option);
        let rest = args.drop_first();
        assert forall|j: int| 0 <= j < i - 1 implies (#[trigger] rest[j])@ != option by {
            assert(rest[j] == args[j + 1]);
        }
        lemma_option_at(rest, option, i - 1);
    }
}

/// The first place at which `args` hold `option`, or their length.
pub fn find_option(args: &[String], option: &str) -> (at: usize)
    ensures
        at == option_at(args@, option@),
        at <= args@.len(),
{
    let mut i: usize = 0;
    while i < args.len()
        invariant
            i <= args@.len(),
            forall|j: int| 0 <= j < i ==> (#[trigger] args@[j])@ != option@,
        decreases args@.len() - i,
    {
        if text::same_text(args[i].as_str(), option) {
            proof {
                lemma_option_at(args@, option@, i as int);
            }
            return i;
        }
        i = i + 1;
    }
    proof {
        lemma_option_at(args@, option@, i as int);
    }
    i
}

/// Whether taking `option` and its value out of `before` leaves `after` and gives
/// `value`.
pub open spec fn takes_option(
    before: Seq<String>,
    after: Seq<String>,
    option: Seq<char>,
    value: Option<String>,
) -> bool {
    let at = option_at(before, option);
    if at == before.len() {
        value is None && after == before
    } else {
        value == Some(before[at + 1]) && after == before.take(at) + before.skip(at + 2)
    }
}

/// Takes the option and its value out of `args`, wherever they stand, and leaves
/// the other arguments in order. An option that stands last has no value.
pub fn extract_expected_server_fingerprint(args: &mut Vec<String>) -> (value: Option<String>)
    requires
        option_at(old(args)@, FINGERPRINT_OPTION@) != old(args)@.len() - 1,
    ensures
        takes_option(old(args)@, final(args)@, FINGERPRINT_OPTION@, value),
{
    let at: usize = find_option(args.as_slice(), FINGERPRINT_OPTION);
    if at == args.len() {
        return None;
    }
    args.remove(at);
    let value = args.remove(at);
    assert(args@ =~= old(args)@.take(at as int) + old(args)@.skip(at + 2));
    Some(value)
}

/// Where the option stands behind arguments that are not the option, and its value behind
/// it, the value is given, and the arguments before and behind them are left, in order.
/// Where no argument is the option, nothing is given and nothing is taken.
pub proof fn law_option_is_taken_out(
    front: Seq<String>,
    option: String,
    value: String,
    back: Seq<String>,
    after: Seq<String>,
    given: Option<String>,
)
    requires
        forall|i: int| 0 <= i < front.len() ==> (#[trigger] front[i])@ != option@,
    ensures
        takes_option(front + seq![option, value] + back, after, option@, given) ==> given == Some(
            value,
        ) && after == front + back,
        takes_option(front, after, option@, given) ==> given is None && after == front,
{
    let args = front + seq![option, value] + back;
    let at = front.len() as int;
    assert forall|j: int| 0 <= j < front.len() implies (#[trigger] args[j])@ != option@ by {
        assert(args[j] == front[j]);
    }
    assert(args[at] == option);
    assert(args[at + 1] == value);
    lemma_option_at(args, option@, at);
    lemma_option_at(front, option@, at);
    assert(args.take(at) + args.skip(at + 2) =~= front + back);
}

} // verus!
