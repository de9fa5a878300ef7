//! The child process that answers messages on a bridge: its commands, and what it does after
//! each look at the bridge.
use vstd::prelude::*;
use crate::idl::lexer;
use crate::text;
use crate::text::same_text;
use crate::time::Duration;

verus! {

/// What a child process is told to do.
#[derive(Debug, Clone, Copy, PartialEq, Eq, Structural)]
pub enum ChildCommand {
    /// Answer one message.
    ConnectEcho,
    /// Answer this many messages.
    ConnectBidi(usize),
    /// Try to host a bridge.
    TryHost,
}

/// What stands behind a plus sign, if there is one in front.
pub open spec fn unsigned(b: Seq<u8>) -> Seq<u8> {
    if b.len() > 0 && b[0] == 43 {
        b.drop_first()
    } else {
        b
    }
}

/// The number that a text stands for: digits, with an optional plus sign in front.
pub open spec fn count_in(b: Seq<u8>) -> Option<usize> {
    let digits = unsigned(b);
    if digits.len() > 0 && (forall|i: int| 0 <= i < digits.len() ==> lexer::is_digit(
        #[trigger] digits[i],
    )) && lexer::digits_value(digits) <= usize::MAX {
        Some(lexer::digits_value(digits) as usize)
    } else {
        None
    }
}

/// The number that a text stands for, if it stands for one.
pub fn parse_count(text: &str) -> (n: Option<usize>)
    ensures
        n == count_in(vstd::utf8::encode_utf8(text@)),
{
    let b: &[u8] = text.as_bytes();
    let start: usize = if b.len() > 0 && b[0] == 43 {
        1
    } else {
        0
    };
    let ghost digits = unsigned(b@);
    assert(digits =~= b@.skip(start as int));
    if b.len() == start {
        return None;
    }
    let mut i: usize = start;
    let mut value: Option<usize> = Some(0);
    assert(digits.take(0) =~= Seq::<u8>::empty());
    while i < b.len()
        invariant
            start <= i <= b@.len(),
            start <= 1,
            b@ == vstd::utf8::encode_utf8(text@),
            digits == unsigned(b@),
            digits == b@.skip(start as int),
            forall|j: int| 0 <= j < i - start ==> lexer::is_digit(#[trigger] digits[j]),
            match value {
                Some(n) => n == lexer::digits_value(digits.take(i - start)),
                None => lexer::digits_value(digits.take(i - start)) > usize::MAX,
            },
        decreases b@.len() - i,
    {
        let c: u8 = b[i];
        assert(c == digits[i - start]);
        if c < 48 || c > 57 {
            assert(!lexer::is_digit(digits[i - start]));
            return None;
        }
        proof {
            let longer = digits.take(i - start + 1);
            assert(longer.drop_last() =~= digits.take(i - start));
            assert(longer.last() == c);
        }
        value = match value {
            Some(n) => match n.checked_mul(10) {
                Some(tens) => tens.checked_add((c - 48) as usize),
                None => None,
            },
            None => None,
        };
        i = i + 1;
    }
    assert(digits.take(i - start) =~= digits);
    value
}

/// The command in a list of arguments: program, command, name of the bridge, and for
/// `connect-bidi` a number of messages, which is one where it is missing or no number.
pub open spec fn command_in(args: Seq<Seq<char>>) -> Result<ChildCommand, Seq<char>> {
    if args.len() < 3 {
        Err("usage: synapse_bridge_child <command> <name> [extra...]"@)
    } else if args[1] == "connect-echo"@ {
        Ok(ChildCommand::ConnectEcho)
    } else if args[1] == "connect-bidi"@ {
        let count = if args.len() > 3 {
            count_in(vstd::utf8::encode_utf8(args[3]))
        } else {
            None
        };
        Ok(
            ChildCommand::ConnectBidi(
                match count {
                    Some(n) => n,
                    None => 1,
                },
            ),
        )
    } else if args[1] == "try-host"@ {
        Ok(ChildCommand::TryHost)
    } else {
        Err("unknown command: "@ + args[1])
    }
}

/// The command in a list of arguments.
pub fn parse_command(args: &Vec<String>) -> (r: Result<ChildCommand, String>)
    ensures
        match command_in(args@.map_values(|a: String| a@)) {
            Ok(command) => r == Ok::<ChildCommand, String>(command),
            Err(message) => r matches Err(found) && found@ == message,
        },
{
    let ghost texts = args@.map_values(|a: String| a@);
    if args.len() < 3 {
        let mut message: String = String::new();
        message.append("usage: synapse_bridge_child <command> <name> [extra...]");
        assert(message@ =~= "usage: synapse_bridge_child <command> <name> [extra...]"@);
        return Err(message);
    }
    assert(texts[1] == args@[1]@);
    let command: &str = args[1].as_str();
    if same_text(command, "connect-echo") {
        Ok(ChildCommand::ConnectEcho)
    } else if same_text(command, "connect-bidi") {
        if args.len() > 3 {
            assert(texts[3] == args@[3]@);
            match parse_count(args[3].as_str()) {
                Some(n) => Ok(ChildCommand::ConnectBidi(n)),
                None => Ok(ChildCommand::ConnectBidi(1)),
            }
        } else {
            Ok(ChildCommand::ConnectBidi(1))
        }
    } else if same_text(command, "try-host") {
        Ok(ChildCommand::TryHost)
    } else {
        let mut message: String = String::new();
        message.append("unknown command: ");
        message.append(command);
        assert(message@ =~= "unknown command: "@ + command@);
        Err(message)
    }
}

/// What a child does after a look at the bridge.
#[derive(Debug, Clone, PartialEq, Eq)]
pub enum EchoAction {
    /// Send this answer.
    Send(Vec<u8>),
    /// Wait for so many milliseconds and look again.
    Pause { millis: u64 },
    /// Give up: no message came in time.
    TimeOut,
    /// Stop: all messages are answered.
    Finish,
}

/// How long a child waits for a message, in seconds.
pub const MESSAGE_LIMIT_SECS: u64 = 5;

/// How long a child pauses between two looks, in milliseconds.
pub const PAUSE_MILLIS: u64 = 2;

/// A child that answers messages.
///
/// Times are given as spans since the child started.
#[derive(Debug)]
pub struct Echo {
    /// What stands in front of each answer.
    pub prefix: Vec<u8>,
    /// How many messages are still to be answered.
    pub remaining: usize,
    /// When the wait for the next message began.
    pub since: Duration,
}

impl Echo {
    /// Whether the wait for the next message has been too long.
    pub open spec fn overdue(self, now: Duration) -> bool {
        now.total_nanos() - self.since.total_nanos() > MESSAGE_LIMIT_SECS * 1_000_000_000
    }

    /// Answers one message, with `ACK:` in front, waiting for it from `now` on.
    pub fn connect_echo(now: Duration) -> (echo: Echo)
        ensures
            echo.prefix@ == seq![65u8, 67u8, 75u8, 58u8],
            echo.remaining == 1,
            echo.since == now,
    {
        let prefix: Vec<u8> = vec![65u8, 67u8, 75u8, 58u8];
        assert(prefix@ =~= seq![65u8, 67u8, 75u8, 58u8]);
        Echo { prefix, remaining: 1, since: now }
    }

    /// Answers `n` messages, with `ECHO:` in front, waiting for the first from `now` on.
    pub fn connect_bidi(n: usize, now: Duration) -> (echo: Echo)
        ensures
            echo.prefix@ == seq![69u8, 67u8, 72u8, 79u8, 58u8],
            echo.remaining == n,
            echo.since == now,
    {
        let prefix: Vec<u8> = vec![69u8, 67u8, 72u8, 79u8, 58u8];
        assert(prefix@ =~= seq![69u8, 67u8, 72u8, 79u8, 58u8]);
        Echo { prefix, remaining: n, since: now }
    }

    /// Decides what to do after a look at the bridge, made at `now`, which found a message or
    /// none. A message is answered even after the time is up.
    pub fn step(&mut self, received: Option<Vec<u8>>, now: &Duration) -> (action: EchoAction)
        requires
            old(self).remaining > 0 || received is None,
            old(self).since.wf(),
            now.wf(),
        ensures
            final(self).prefix == old(self).prefix,
            final(self).since == old(self).since,
            match received {
                Some(data) => {
                    &&& action matches EchoAction::Send(reply) && reply@ == old(self).prefix@
                        + data@
                    &&& final(self).remaining == old(self).remaining - 1
                },
                None => {
                    &&& final(self).remaining == old(self).remaining
                    &&& action == if old(self).remaining == 0 {
                        EchoAction::Finish
                    } else if old(self).overdue(*now) {
                        EchoAction::TimeOut
                    } else {
                        EchoAction::Pause { millis: 2 }
                    }
                },
            },
    {
        match received {
            Some(data) => {
                let mut reply: Vec<u8> = Vec::new();
                reply.extend_from_slice(self.prefix.as_slice());
                reply.extend_from_slice(data.as_slice());
                self.remaining = self.remaining - 1;
                assert(reply@ =~= self.prefix@ + data@);
                EchoAction::Send(reply)
            },
            None => {
                if self.remaining == 0 {
                    EchoAction::Finish
                } else if self.is_overdue(now) {
                    EchoAction::TimeOut
                } else {
                    EchoAction::Pause { millis: PAUSE_MILLIS }
                }
            },
        }
    }

    fn is_overdue(&self, now: &Duration) -> (r: bool)
        requires
            self.since.wf(),
            now.wf(),
        ensures
            r == self.overdue(*now),
    {
        if !now.reaches(&self.since) {
            return false;
        }
        let waited: Duration = now.minus(&self.since);
        waited.secs > MESSAGE_LIMIT_SECS || (waited.secs == MESSAGE_LIMIT_SECS && waited.nanos > 0)
    }

    /// Goes on after an answer was sent: the wait for the next message begins at `now`.
    pub fn answered(&mut self, now: Duration)
        ensures
            *final(self) == (Echo { since: now, ..*old(self) }),
    {
        self.since = now;
    }
}

/// A child waits for each message as long as for the first: once it has answered one, the wait
/// begins anew, and it gives up only when no message came for longer than the limit since then.
pub proof fn law_each_message_has_its_time(echo: Echo, answered_at: Duration, now: Duration)
    requires
        answered_at.wf(),
        now.wf(),
    ensures
        (Echo { since: answered_at, ..echo }).overdue(now) <==> now.total_nanos()
            > answered_at.total_nanos() + 5_000_000_000,
{
}

/// A number that is written in digits, with or without a plus sign in front, and with any zeros
/// in front, is read as that number, if it is a `usize`.
pub proof fn law_counts_are_read(n: nat, zeros: nat, plus: bool)
    ensures
        ({
            let digits = Seq::new(zeros, |i: int| 48u8) + text::decimal(n).map_values(
                |c: char| c as u8,
            );
            let written = if plus {
                seq![43u8] + digits
            } else {
                digits
            };
            count_in(written) == if n <= usize::MAX {
                Some(n as usize)
            } else {
                None
            }
        }),
    decreases zeros,
{
    let written = text::decimal(n).map_values(|c: char| c as u8);
    let digits = Seq::new(zeros, |i: int| 48u8) + written;
    lemma_digits(n);
    lemma_leading_zeros(zeros, written);
    assert forall|i: int| 0 <= i < digits.len() implies lexer::is_digit(#[trigger] digits[i]) by {
        if i >= zeros {
            assert(digits[i] == written[i - zeros]);
        }
    }
    assert(digits.len() > 0);
    assert((seq![43u8] + digits).drop_first() =~= digits);
    assert(digits[0] != 43) by {
        assert(lexer::is_digit(digits[0]));
    }
    assert(unsigned(if plus {
        seq![43u8] + digits
    } else {
        digits
    }) == digits);
}

/// A text with anything but digits in it, except a plus sign in front, is no number; nor is an
/// empty one, nor a plus sign alone.
pub proof fn law_other_counts(b: Seq<u8>, i: int)
    requires
        b.len() == 0 || b == seq![43u8] || (0 <= i < b.len() && !(48 <= b[i] <= 57) && (i > 0
            || b[i] != 43)),
    ensures
        count_in(b) is None,
{
    let digits = unsigned(b);
    if b.len() == 0 {
    } else if b == seq![43u8] {
        assert(digits.len() == 0);
    } else {
        if b[0] == 43 {
            assert(digits[i - 1] == b[i]);
            assert(!lexer::is_digit(digits[i - 1]));
        } else {
            assert(!lexer::is_digit(digits[i]));
        }
    }
}

/// A decimal number is a run of digits that stands for it.
proof fn lemma_digits(n: nat)
    ensures
        ({
            let written = text::decimal(n).map_values(|c: char| c as u8);
            &&& written.len() > 0
            &&& forall|i: int| 0 <= i < written.len() ==> 48 <= #[trigger] written[i] <= 57
            &&& lexer::digits_value(written) == n
        }),
    decreases n,
{
    let written = text::decimal(n).map_values(|c: char| c as u8);
    let last = text::digit_char(n % 10) as u8;
    assert(last == 48 + n % 10);
    if n >= 10 {
        lemma_digits(n / 10);
        let front = text::decimal(n / 10).map_values(|c: char| c as u8);
        assert(written =~= front.push(last));
        assert(written.drop_last() =~= front);
    } else {
        assert(written =~= seq![last]);
        assert(written.drop_last() =~= Seq::<u8>::empty());
        assert(lexer::digits_value(Seq::<u8>::empty()) == 0);
    }
}

/// Zeros in front of digits change nothing.
proof fn lemma_leading_zeros(zeros: nat, digits: Seq<u8>)
    ensures
        lexer::digits_value(Seq::new(zeros, |i: int| 48u8) + digits) == lexer::digits_value(digits),
    decreases digits.len(), zeros,
{
    let front = Seq::new(zeros, |i: int| 48u8);
    let all = front + digits;
    if digits.len() > 0 {
        lemma_leading_zeros(zeros, digits.drop_last());
        assert(all.drop_last() =~= front + digits.drop_last());
    } else if zeros > 0 {
        let less = (zeros - 1) as nat;
        lemma_leading_zeros(less, digits);
        assert(all.drop_last() =~= Seq::new(less, |i: int| 48u8) + digits);
        assert(all.last() == 48);
    } else {
        assert(all =~= digits);
    }
}

/// What a child is told to do: the command is the second argument, the third must be there, and a
/// number of messages is the fourth, if that is a number, and else one.
pub proof fn law_commands(args: Seq<Seq<char>>)
    ensures
        args.len() < 3 ==> command_in(args) == Err::<ChildCommand, Seq<char>>(
            "usage: synapse_bridge_child <command> <name> [extra...]"@,
        ),
        args.len() >= 3 && args[1] == "connect-echo"@ ==> command_in(args) == Ok::<
            ChildCommand,
            Seq<char>,
        >(ChildCommand::ConnectEcho),
        args.len() >= 3 && args[1] == "try-host"@ ==> command_in(args) == Ok::<
            ChildCommand,
            Seq<char>,
        >(ChildCommand::TryHost),
        args.len() >= 3 && args[1] == "connect-bidi"@ ==> command_in(args) == Ok::<
            ChildCommand,
            Seq<char>,
        >(
            ChildCommand::ConnectBidi(
                if args.len() > 3 && count_in(vstd::utf8::encode_utf8(args[3])) is Some {
                    count_in(vstd::utf8::encode_utf8(args[3])).unwrap()
                } else {
                    1
                },
            ),
        ),
        args.len() >= 3 && args[1] != "connect-echo"@ && args[1] != "connect-bidi"@ && args[1]
            != "try-host"@ ==> command_in(args) == Err::<ChildCommand, Seq<char>>(
            "unknown command: "@ + args[1],
        ),
{
    reveal_strlit("connect-echo");
    reveal_strlit("connect-bidi");
    reveal_strlit("try-host");
    assert("connect-echo"@[8] != "connect-bidi"@[8]);
    assert("try-host"@.len() != "connect-bidi"@.len());
    assert("try-host"@.len() != "connect-echo"@.len());
}

} // verus!
