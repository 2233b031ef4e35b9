//! Test commands in place of a URL: `TEST ERROR` and `TEST DELAY <seconds>`.

use crate::number::{
    decimal_text, is_digit, law_decimal_text_is_digits, law_read_back, parse_unsigned,
    parsed_unsigned,
};
use crate::text::{
    after, before, chars_of, contains, cut, law_cut_undoes_join, occurs, occurs_at, same_text,
    stands_at, text_of,
};
use vstd::prelude::*;
use vstd::string::*;

verus! {

/// What a URL asks for before anything is downloaded.
pub enum TestPlan {
    /// No test: go on with the download.
    Proceed,
    /// Fail at once, with this message.
    Fail(Seq<char>),
    /// Wait for so many seconds, then fail with this message.
    DelayThenFail(nat, Seq<char>),
}

/// What a URL asks for before anything is downloaded.
#[derive(Debug)]
pub enum UrlTest {
    /// No test: go on with the download.
    Proceed,
    /// Fail at once, with this message.
    Fail(String),
    /// Wait for so many seconds, then fail with this message.
    DelayThenFail(u64, String),
}

impl View for UrlTest {
    type V = TestPlan;

    open spec fn view(&self) -> TestPlan {
        match self {
            UrlTest::Proceed => TestPlan::Proceed,
            UrlTest::Fail(m) => TestPlan::Fail(m@),
            UrlTest::DelayThenFail(n, m) => TestPlan::DelayThenFail(*n as nat, m@),
        }
    }
}

/// A URL is a test where it begins with `TEST ` and those characters do not stand in it a
/// second time.
pub open spec fn is_test(url: Seq<char>) -> bool {
    occurs_at(url, "TEST "@, 0) && !occurs(url.skip("TEST "@.len() as int), "TEST "@)
}

/// The second of the words that single spaces separate, where there is one.
pub open spec fn second_word(command: Seq<char>) -> Option<Seq<char>> {
    match after(command, ' ') {
        Some(rest) => Some(before(rest, ' ')),
        None => None,
    }
}

/// What the command after `TEST ` asks for.
pub open spec fn command_plan(command: Seq<char>) -> TestPlan {
    let verb = before(command, ' ');
    let argument = second_word(command);
    if verb == "ERROR"@ {
        TestPlan::Fail("Test error"@)
    } else if verb == "DELAY"@ && argument is Some {
        match parsed_unsigned(argument->0, u64::MAX as nat) {
            Ok(n) => TestPlan::DelayThenFail(n, "Test delay finished"@),
            Err(e) => TestPlan::Fail(e.text()),
        }
    } else {
        TestPlan::Fail(
            "Invalid test command: "@ + verb + " "@ + (match argument {
                Some(a) => a,
                None => Seq::empty(),
            }),
        )
    }
}

/// What a URL asks for.
pub open spec fn test_plan(url: Seq<char>) -> TestPlan {
    if is_test(url) {
        command_plan(url.skip("TEST "@.len() as int))
    } else {
        TestPlan::Proceed
    }
}

/// A download goes on exactly where its URL is no test: every test fails in the end.
pub proof fn law_tests_always_fail(url: Seq<char>)
    ensures
        test_plan(url) is Proceed <==> !is_test(url),
{
}

/// A URL is a test exactly where it is `TEST ` and a command in which these characters do not
/// stand again. What a test asks for is what its command asks for; any other URL is downloaded.
pub proof fn law_tests_are_marked(url: Seq<char>, command: Seq<char>)
    ensures
        is_test(url) <==> exists|c: Seq<char>| url == #[trigger] ("TEST "@ + c) && !occurs(
            c,
            "TEST "@,
        ),
        !occurs(command, "TEST "@) ==> test_plan("TEST "@ + command) == command_plan(command),
        occurs(command, "TEST "@) ==> test_plan("TEST "@ + command) is Proceed,
        !(exists|c: Seq<char>| url == #[trigger] ("TEST "@ + c)) ==> test_plan(url) is Proceed,
{
    let mark = "TEST "@;
    let n = mark.len() as int;
    if occurs_at(url, mark, 0) {
        assert(url.subrange(0, n) == mark);
        assert(url =~= mark + url.skip(n));
    }
    assert forall|c: Seq<char>| url == #[trigger] (mark + c) implies occurs_at(url, mark, 0)
        && url.skip(n) == c by {
        assert(url.subrange(0, n) =~= mark);
        assert(url.skip(n) =~= c);
    }
    if is_test(url) {
        let c = url.skip(n);
        assert(url == mark + c && !occurs(c, mark));
    }
    let test = mark + command;
    assert(test.subrange(0, n) =~= mark);
    assert(test.skip(n) =~= command);
    assert(occurs_at(test, mark, 0));
}

/// What a command asks for, given the word that it begins with, the word after it where there is
/// one, and whatever follows behind another space: `ERROR` fails at once; `DELAY` and a number
/// waits for as many seconds and then fails; `DELAY` and something else fails with what is wrong
/// with the number; and any other command fails and is named in the message.
pub proof fn law_commands(verb: Seq<char>, word: Seq<char>, rest: Seq<char>)
    requires
        !verb.contains(' '),
        !word.contains(' '),
    ensures
        ({
            let two = verb.push(' ') + word;
            let more = verb.push(' ') + (word.push(' ') + rest);
            &&& verb == "ERROR"@ ==> {
                &&& command_plan(verb) == TestPlan::Fail("Test error"@)
                &&& command_plan(two) == TestPlan::Fail("Test error"@)
                &&& command_plan(more) == TestPlan::Fail("Test error"@)
            }
            &&& verb == "DELAY"@ ==> {
                let plan = match parsed_unsigned(word, 0xffff_ffff_ffff_ffff) {
                    Ok(n) => TestPlan::DelayThenFail(n, "Test delay finished"@),
                    Err(e) => TestPlan::Fail(e.text()),
                };
                &&& command_plan(verb) == TestPlan::Fail("Invalid test command: DELAY "@)
                &&& command_plan(two) == plan
                &&& command_plan(more) == plan
            }
            &&& verb != "ERROR"@ && verb != "DELAY"@ ==> {
                let m = "Invalid test command: "@ + verb + " "@;
                &&& command_plan(verb) == TestPlan::Fail(m)
                &&& command_plan(two) == TestPlan::Fail(m + word)
                &&& command_plan(more) == TestPlan::Fail(m + word)
            }
        }),
{
    let two = verb.push(' ') + word;
    let more = verb.push(' ') + (word.push(' ') + rest);
    law_cut_undoes_join(verb, ' ', word);
    law_cut_undoes_join(verb, ' ', word.push(' ') + rest);
    law_cut_undoes_join(word, ' ', rest);
    let m = "Invalid test command: "@ + verb + " "@;
    assert(m + Seq::<char>::empty() =~= m);
    reveal_strlit("ERROR");
    reveal_strlit("DELAY");
    assert("ERROR"@[0] == 'E' && "DELAY"@[0] == 'D');
    if verb == "DELAY"@ {
        reveal_strlit("Invalid test command: ");
        reveal_strlit(" ");
        reveal_strlit("Invalid test command: DELAY ");
        assert(m =~= "Invalid test command: DELAY "@);
    }
}

/// The number behind `DELAY` is the number of seconds to wait, whatever it is.
pub proof fn law_delays_are_as_long_as_asked(n: nat)
    requires
        n <= u64::MAX,
    ensures
        test_plan("TEST "@ + ("DELAY "@ + decimal_text(n))) == TestPlan::DelayThenFail(
            n,
            "Test delay finished"@,
        ),
{
    let word = decimal_text(n);
    reveal_strlit("DELAY");
    reveal_strlit("DELAY ");
    law_decimal_text_is_digits(n);
    law_read_back(n, u64::MAX as nat);
    assert forall|i: int| 0 <= i < word.len() implies word[i] != ' ' by {
        assert(is_digit(word[i]));
    }
    assert("DELAY "@ =~= "DELAY"@.push(' '));
    law_commands("DELAY"@, word, Seq::empty());
    let command = "DELAY "@ + word;
    reveal_strlit("TEST ");
    assert forall|at: int| !occurs_at(command, "TEST "@, at) by {
        if occurs_at(command, "TEST "@, at) {
            assert(command.subrange(at, at + 5)[0] == 'T');
            assert(command[at] == 'T');
            if at >= 6 {
                assert(is_digit(word[at - 6]));
            }
        }
    }
    law_tests_are_marked("TEST "@ + command, command);
}

/// What is decided of a URL is seen as it is.
pub proof fn law_decisions_are_seen_whole(n: u64, m: String)
    ensures
        UrlTest::Proceed@ == TestPlan::Proceed,
        UrlTest::Fail(m)@ == TestPlan::Fail(m@),
        UrlTest::DelayThenFail(n, m)@ == TestPlan::DelayThenFail(n as nat, m@),
{
}

/// Decides what the command after `TEST ` asks for.
fn run_command(command: &str) -> (r: UrlTest)
    ensures
        r@ == command_plan(command@),
{
    let (verb, rest) = cut(command, ' ');
    let argument: Option<String> = match rest {
        Some(t) => Some(cut(t.as_str(), ' ').0),
        None => None,
    };
    if same_text(verb.as_str(), "ERROR") {
        return UrlTest::Fail("Test error".to_owned());
    }
    match argument {
        Some(a) => {
            if same_text(verb.as_str(), "DELAY") {
                return match parse_unsigned(a.as_str(), u64::MAX) {
                    Ok(n) => UrlTest::DelayThenFail(n, "Test delay finished".to_owned()),
                    Err(e) => UrlTest::Fail(e.message()),
                };
            }
            UrlTest::Fail(
                "Invalid test command: ".to_owned().concat(verb.as_str()).concat(" ").concat(
                    a.as_str(),
                ),
            )
        },
        None => {
            let m = "Invalid test command: ".to_owned().concat(verb.as_str()).concat(" ");
            assert(m@ =~= m@ + Seq::<char>::empty());
            UrlTest::Fail(m)
        },
    }
}

/// Decides what a URL asks for before anything is downloaded.
pub fn url_tests(url: &str) -> (r: UrlTest)
    ensures
        r@ == test_plan(url@),
{
    let chars = chars_of(url);
    let mark = chars_of("TEST ");
    if !stands_at(&chars, &mark, 0) {
        return UrlTest::Proceed;
    }
    let command = text_of(&chars, mark.len(), chars.len());
    assert(command@ =~= url@.skip(mark@.len() as int));
    if contains(command.as_str(), "TEST ") {
        return UrlTest::Proceed;
    }
    run_command(command.as_str())
}

} // verus!
