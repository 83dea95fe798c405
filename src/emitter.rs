use vstd::prelude::*;
use vstd::string::StringExecFns;

use crate::model::Intent;

verus! {

/// The character of a decimal digit.
pub open spec fn digit_char(d: nat) -> char {
    if d == 0 {
        '0'
    } else if d == 1 {
        '1'
    } else if d == 2 {
        '2'
    } else if d == 3 {
        '3'
    } else if d == 4 {
        '4'
    } else if d == 5 {
        '5'
    } else if d == 6 {
        '6'
    } else if d == 7 {
        '7'
    } else if d == 8 {
        '8'
    } else {
        '9'
    }
}

/// The decimal writing of `n`, without leading zeros.
pub open spec fn decimal(n: nat) -> Seq<char>
    decreases n,
{
    if n < 10 {
        seq![digit_char(n)]
    } else {
        decimal(n / 10) + seq![digit_char(n % 10)]
    }
}

/// The no-op command.
pub open spec fn wait_text() -> Seq<char> {
    seq!['W', 'A', 'I', 'T']
}

/// The command `LINE <source> <target> <weight>` for one intent.
pub open spec fn command_text(source: nat, intent: Intent) -> Seq<char> {
    seq!['L', 'I', 'N', 'E', ' '] + decimal(source) + seq![' '] + decimal(intent.target as nat)
        + seq![' '] + decimal(intent.weight as nat)
}

/// The commands of all intents, in order, joined by `;`.
pub open spec fn joined_commands(source: nat, intents: Seq<Intent>) -> Seq<char>
    decreases intents.len(),
{
    if intents.len() == 0 {
        Seq::empty()
    } else if intents.len() == 1 {
        command_text(source, intents[0])
    } else {
        joined_commands(source, intents.drop_last()) + seq![';'] + command_text(
            source,
            intents.last(),
        )
    }
}

/// The line emitted for a turn: the no-op command when there is no intent, else the commands.
pub open spec fn command_line(source: nat, intents: Seq<Intent>) -> Seq<char> {
    if intents.len() == 0 {
        wait_text()
    } else {
        joined_commands(source, intents)
    }
}

/// Joined commands start with the first command's `L`.
proof fn lemma_joined_starts_with_line(source: nat, intents: Seq<Intent>)
    requires
        intents.len() > 0,
    ensures
        joined_commands(source, intents).len() > 0,
        joined_commands(source, intents)[0] == 'L',
    decreases intents.len(),
{
    if intents.len() > 1 {
        lemma_joined_starts_with_line(source, intents.drop_last());
    }
}

/// The emitted line is never empty, and it is the no-op command exactly when there is no
/// intent; otherwise it starts with a `LINE` command.
pub proof fn lemma_wait_iff_no_intent(source: nat, intents: Seq<Intent>)
    ensures
        command_line(source, intents).len() > 0,
        command_line(source, intents) == wait_text() <==> intents.len() == 0,
        intents.len() > 0 ==> command_line(source, intents)[0] == 'L',
{
    if intents.len() > 0 {
        lemma_joined_starts_with_line(source, intents);
        assert(command_line(source, intents)[0] != wait_text()[0]);
    }
}

/// The text of one decimal digit.
fn digit_text(d: u64) -> (r: &'static str)
    requires
        d < 10,
    ensures
        r@ == seq![digit_char(d as nat)],
{
    proof {
        reveal_strlit("0");
        reveal_strlit("1");
        reveal_strlit("2");
        reveal_strlit("3");
        reveal_strlit("4");
        reveal_strlit("5");
        reveal_strlit("6");
        reveal_strlit("7");
        reveal_strlit("8");
        reveal_strlit("9");
    }
    let r = if d == 0 {
        "0"
    } else if d == 1 {
        "1"
    } else if d == 2 {
        "2"
    } else if d == 3 {
        "3"
    } else if d == 4 {
        "4"
    } else if d == 5 {
        "5"
    } else if d == 6 {
        "6"
    } else if d == 7 {
        "7"
    } else if d == 8 {
        "8"
    } else {
        "9"
    };
    assert(r@ =~= seq![digit_char(d as nat)]);
    r
}

/// Appends the decimal writing of `n`.
fn push_decimal(s: &mut String, n: u64)
    ensures
        final(s)@ == old(s)@ + decimal(n as nat),
    decreases n,
{
    if n >= 10 {
        push_decimal(s, n / 10);
    }
    s.append(digit_text(n % 10));
    assert(decimal(n as nat) == if n < 10 {
        seq![digit_char(n as nat)]
    } else {
        decimal((n / 10) as nat) + seq![digit_char((n % 10) as nat)]
    });
}

/// Appends the command of one intent.
fn push_command(s: &mut String, source: usize, intent: Intent)
    ensures
        final(s)@ == old(s)@ + command_text(source as nat, intent),
{
    proof {
        reveal_strlit("LINE ");
        reveal_strlit(" ");
    }
    let ghost start = s@;
    s.append("LINE ");
    assert("LINE "@ =~= seq!['L', 'I', 'N', 'E', ' ']);
    push_decimal(s, source as u64);
    s.append(" ");
    assert(" "@ =~= seq![' ']);
    push_decimal(s, intent.target as u64);
    s.append(" ");
    push_decimal(s, intent.weight as u64);
    assert(s@ =~= start + command_text(source as nat, intent));
}

/// Renders the intents of a turn as its output line: `WAIT` when there is none, else one
/// `LINE <source> <target> <weight>` command per intent, joined by `;`.
pub fn render_actions(source: usize, intents: &Vec<Intent>) -> (r: String)
    ensures
        r@ == command_line(source as nat, intents@),
{
    proof {
        reveal_strlit("WAIT");
    }
    if intents.len() == 0 {
        let r = String::from_str("WAIT");
        assert(r@ =~= wait_text());
        return r;
    }
    let mut line = String::new();
    push_command(&mut line, source, intents[0]);
    assert(line@ =~= joined_commands(source as nat, intents@.take(1)));
    let mut i: usize = 1;
    while i < intents.len()
        invariant
            1 <= i <= intents.len(),
            line@ == joined_commands(source as nat, intents@.take(i as int)),
        decreases intents.len() - i,
    {
        line.append(";");
        proof {
            reveal_strlit(";");
        }
        assert(";"@ =~= seq![';']);
        push_command(&mut line, source, intents[i]);
        assert(intents@.take(i + 1).drop_last() =~= intents@.take(i as int));
        i = i + 1;
    }
    assert(intents@.take(intents.len() as int) =~= intents@);
    line
}

} // verus!
