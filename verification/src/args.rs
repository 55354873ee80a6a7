//! The flags of the command line.

use crate::text::{same, views};
use vstd::prelude::*;

verus! {

/// What the flags ask for.
pub enum Start {
    /// Show the help text.
    Help,
    /// There is no command: show the help text and fail.
    Usage,
    /// The flags make no sense, for this reason.
    Invalid(String),
    /// Run a command.
    Run {
        /// Line-oriented output instead of JSON.
        plain: bool,
        /// The browser to talk to.
        browser: String,
        /// The command: a group, a verb and what the verb needs.
        words: Vec<String>,
    },
}

/// What the flags ask for.
pub ghost enum StartView {
    Help,
    Usage,
    Invalid(Seq<char>),
    Run { plain: bool, browser: Seq<char>, words: Seq<Seq<char>> },
}

impl View for Start {
    type V = StartView;

    open spec fn view(&self) -> StartView {
        match self {
            Start::Help => StartView::Help,
            Start::Usage => StartView::Usage,
            Start::Invalid(message) => StartView::Invalid(message@),
            Start::Run { plain, browser, words } => StartView::Run {
                plain: *plain,
                browser: browser@,
                words: views(words@),
            },
        }
    }
}

/// What arguments ask for, after flags that chose the form of the output and the
/// browser. Flags end at the first argument that is none.
pub open spec fn start_after(args: Seq<Seq<char>>, plain: bool, browser: Seq<char>) -> StartView
    decreases args.len(),
{
    if args.len() == 0 {
        StartView::Usage
    } else if args[0] == "--plain"@ {
        start_after(args.skip(1), true, browser)
    } else if args[0] == "--browser"@ {
        if args.len() == 1 {
            StartView::Invalid("--browser needs a value"@)
        } else {
            start_after(args.skip(2), plain, args[1])
        }
    } else if args[0] == "-h"@ || args[0] == "--help"@ {
        StartView::Help
    } else {
        StartView::Run { plain, browser, words: args }
    }
}

/// What arguments ask for: JSON output from Chrome, unless flags say otherwise.
pub open spec fn start_of(args: Seq<Seq<char>>) -> StartView {
    start_after(args, false, "chrome"@)
}

/// Read the flags from the arguments of the program, its name left out.
pub fn parse_flags(args: &[String]) -> (start: Start)
    ensures
        start@ == start_of(views(args@)),
{
    let mut plain = false;
    let mut browser = "chrome".to_owned();
    let mut i: usize = 0;
    assert(views(args@).skip(0) =~= views(args@));
    while i < args.len()
        invariant
            i <= args@.len(),
            start_of(views(args@)) == start_after(views(args@).skip(i as int), plain, browser@),
        decreases args@.len() - i,
    {
        let arg = args[i].as_str();
        let ghost rest = views(args@).skip(i as int);
        assert(rest[0] == arg@);
        assert(rest.skip(1) =~= views(args@).skip(i + 1));
        if same(arg, "--plain") {
            plain = true;
            i += 1;
        } else if same(arg, "--browser") {
            if i + 1 == args.len() {
                return Start::Invalid("--browser needs a value".to_owned());
            }
            assert(rest[1] == args@[i + 1]@);
            assert(rest.skip(2) =~= views(args@).skip(i + 2));
            browser = args[i + 1].clone();
            i += 2;
        } else if same(arg, "-h") || same(arg, "--help") {
            return Start::Help;
        } else {
            let words = copied(vstd::slice::slice_subrange(args, i, args.len()));
            assert(views(words@) =~= rest);
            return Start::Run { plain, browser, words };
        }
    }
    Start::Usage
}

/// A copy of some strings.
fn copied(strings: &[String]) -> (r: Vec<String>)
    ensures
        r@ == strings@,
{
    let mut r: Vec<String> = Vec::new();
    let mut i: usize = 0;
    while i < strings.len()
        invariant
            i <= strings@.len(),
            r@ == strings@.take(i as int),
        decreases strings@.len() - i,
    {
        r.push(strings[i].clone());
        i += 1;
        assert(r@ =~= strings@.take(i as int));
    }
    assert(strings@.take(i as int) =~= strings@);
    r
}

/// An argument that is a flag.
pub open spec fn is_flag(arg: Seq<char>) -> bool {
    arg == "--plain"@ || arg == "--browser"@ || arg == "-h"@ || arg == "--help"@
}

/// A command without flags puts out JSON and goes to Chrome. `--plain` before it
/// changes the output, and `--browser` before it the browser, and nothing else.
pub proof fn law_flags(words: Seq<Seq<char>>, browser: Seq<char>)
    requires
        words.len() > 0,
        !is_flag(words[0]),
    ensures
        start_of(words) == (StartView::Run { plain: false, browser: "chrome"@, words }),
        start_of(seq!["--plain"@] + words) == (StartView::Run {
            plain: true,
            browser: "chrome"@,
            words,
        }),
        start_of(seq!["--browser"@, browser] + words) == (StartView::Run {
            plain: false,
            browser,
            words,
        }),
{
    reveal_strlit("--plain");
    reveal_strlit("--browser");
    assert("--plain"@.len() != "--browser"@.len());
    reveal_with_fuel(start_after, 2);
    assert((seq!["--plain"@] + words).skip(1) =~= words);
    assert((seq!["--browser"@, browser] + words).skip(2) =~= words);
}

/// The two flags may come in either order.
pub proof fn law_flags_in_either_order(words: Seq<Seq<char>>, browser: Seq<char>)
    requires
        words.len() > 0,
        !is_flag(words[0]),
    ensures
        start_of(seq!["--plain"@, "--browser"@, browser] + words) == (StartView::Run {
            plain: true,
            browser,
            words,
        }),
        start_of(seq!["--browser"@, browser, "--plain"@] + words) == (StartView::Run {
            plain: true,
            browser,
            words,
        }),
{
    reveal_strlit("--plain");
    reveal_strlit("--browser");
    assert("--plain"@.len() != "--browser"@.len());
    reveal_with_fuel(start_after, 3);
    let first = seq!["--plain"@, "--browser"@, browser] + words;
    let second = seq!["--browser"@, browser, "--plain"@] + words;
    assert(first.skip(1) =~= seq!["--browser"@, browser] + words);
    assert(first.skip(1).skip(2) =~= words);
    assert(second.skip(2) =~= seq!["--plain"@] + words);
    assert(second.skip(2).skip(1) =~= words);
}

/// Either flag for help asks for help, whatever follows it.
pub proof fn law_help(rest: Seq<Seq<char>>)
    ensures
        start_of(seq!["-h"@] + rest) == StartView::Help,
        start_of(seq!["--help"@] + rest) == StartView::Help,
{
    reveal_strlit("-h");
    reveal_strlit("--help");
    reveal_strlit("--plain");
    reveal_strlit("--browser");
    assert("-h"@.len() < "--help"@.len() < "--plain"@.len() < "--browser"@.len());
}

/// Where arguments ask for help, whatever follows them changes nothing.
pub proof fn law_help_needs_no_more(args: Seq<Seq<char>>, rest: Seq<Seq<char>>)
    requires
        start_of(args) == StartView::Help,
    ensures
        start_of(args + rest) == StartView::Help,
{
    lemma_help_needs_no_more(args, rest, false, "chrome"@);
}

proof fn lemma_help_needs_no_more(
    args: Seq<Seq<char>>,
    rest: Seq<Seq<char>>,
    plain: bool,
    browser: Seq<char>,
)
    requires
        start_after(args, plain, browser) == StartView::Help,
    ensures
        start_after(args + rest, plain, browser) == StartView::Help,
    decreases args.len(),
{
    if args[0] == "--plain"@ {
        lemma_help_needs_no_more(args.skip(1), rest, true, browser);
        assert((args + rest).skip(1) =~= args.skip(1) + rest);
    } else if args[0] == "--browser"@ {
        lemma_help_needs_no_more(args.skip(2), rest, plain, args[1]);
        assert((args + rest).skip(2) =~= args.skip(2) + rest);
    }
}

/// A command is never empty: it begins at the first argument that is no flag, and
/// everything from there on belongs to it.
pub proof fn law_command_is_the_rest(args: Seq<Seq<char>>)
    ensures
        start_of(args) matches StartView::Run { words, .. } ==> {
            &&& words.len() > 0
            &&& !is_flag(words[0])
            &&& words.is_suffix_of(args)
        },
{
    lemma_command_is_the_rest(args, false, "chrome"@);
}

proof fn lemma_command_is_the_rest(args: Seq<Seq<char>>, plain: bool, browser: Seq<char>)
    ensures
        start_after(args, plain, browser) matches StartView::Run { words, .. } ==> {
            &&& words.len() > 0
            &&& !is_flag(words[0])
            &&& words.is_suffix_of(args)
        },
    decreases args.len(),
{
    if args.len() > 0 {
        if args[0] == "--plain"@ {
            lemma_command_is_the_rest(args.skip(1), true, browser);
            if let StartView::Run { words, .. } = start_after(args, plain, browser) {
                assert(words =~= args.subrange(args.len() - words.len(), args.len() as int));
            }
        } else if args[0] == "--browser"@ && args.len() > 1 {
            lemma_command_is_the_rest(args.skip(2), plain, args[1]);
            if let StartView::Run { words, .. } = start_after(args, plain, browser) {
                assert(words =~= args.subrange(args.len() - words.len(), args.len() as int));
            }
        } else {
            assert(args =~= args.subrange(0, args.len() as int));
        }
    }
}

/// One of the flags that may stand before a command.
pub ghost enum Flag {
    Plain,
    Browser(Seq<char>),
}

/// Flags as they are written.
pub open spec fn written_flags(flags: Seq<Flag>) -> Seq<Seq<char>>
    decreases flags.len(),
{
    if flags.len() == 0 {
        Seq::empty()
    } else {
        written_flags(flags.drop_last()) + match flags.last() {
            Flag::Plain => seq!["--plain"@],
            Flag::Browser(browser) => seq!["--browser"@, browser],
        }
    }
}

/// The last browser that flags name, and `chrome` where they name none.
pub open spec fn is_last_browser(flags: Seq<Flag>, browser: Seq<char>) -> bool {
    ||| browser == "chrome"@ && forall|i: int| 0 <= i < flags.len() ==> #[trigger] flags[i] is Plain
    ||| exists|i: int|
        {
            &&& 0 <= i < flags.len()
            &&& #[trigger] flags[i] == Flag::Browser(browser)
            &&& forall|j: int| i < j < flags.len() ==> #[trigger] flags[j] is Plain
        }
}

/// Flags in any number and order, and what may follow them: a command runs in plain form
/// where `--plain` is among them, for the last browser that they name. After them help
/// is help, nothing is a call for usage, and `--browser` needs a value.
pub proof fn law_any_flags(
    flags: Seq<Flag>,
    browser: Seq<char>,
    words: Seq<Seq<char>>,
    rest: Seq<Seq<char>>,
)
    requires
        is_last_browser(flags, browser),
    ensures
        words.len() > 0 && words[0] != "--plain"@ && words[0] != "--browser"@ && words[0] != "-h"@
            && words[0] != "--help"@ ==> start_of(written_flags(flags) + words) == (
        StartView::Run { plain: flags.contains(Flag::Plain), browser, words }),
        start_of(written_flags(flags) + seq!["-h"@] + rest) == StartView::Help,
        start_of(written_flags(flags) + seq!["--help"@] + rest) == StartView::Help,
        start_of(written_flags(flags)) == StartView::Usage,
        start_of(written_flags(flags) + seq!["--browser"@]) == StartView::Invalid(
            "--browser needs a value"@,
        ),
{
    reveal_strlit("-h");
    reveal_strlit("--help");
    reveal_strlit("--plain");
    reveal_strlit("--browser");
    assert("-h"@.len() < "--help"@.len() < "--plain"@.len() < "--browser"@.len());
    let w = written_flags(flags);
    let plain = flags.contains(Flag::Plain);
    lemma_flags_are_read(flags, browser, words);
    lemma_flags_are_read(flags, browser, seq!["-h"@] + rest);
    assert(w + seq!["-h"@] + rest =~= w + (seq!["-h"@] + rest));
    lemma_flags_are_read(flags, browser, seq!["--help"@] + rest);
    assert(w + seq!["--help"@] + rest =~= w + (seq!["--help"@] + rest));
    lemma_flags_are_read(flags, browser, Seq::empty());
    assert(w + Seq::<Seq<char>>::empty() =~= w);
    lemma_flags_are_read(flags, browser, seq!["--browser"@]);
}

proof fn lemma_flags_are_read(flags: Seq<Flag>, browser: Seq<char>, rest: Seq<Seq<char>>)
    requires
        is_last_browser(flags, browser),
    ensures
        start_of(written_flags(flags) + rest) == start_after(
            rest,
            flags.contains(Flag::Plain),
            browser,
        ),
    decreases flags.len(),
{
    reveal_strlit("--plain");
    reveal_strlit("--browser");
    assert("--plain"@.len() != "--browser"@.len());
    if flags.len() == 0 {
        assert(written_flags(flags) + rest =~= rest);
        assert(!flags.contains(Flag::Plain));
    } else {
        let init = flags.drop_last();
        let w = written_flags(init);
        assert(flags =~= init.push(flags.last()));
        match flags.last() {
            Flag::Plain => {
                assert(flags[flags.len() - 1] == Flag::Plain);
                assert(flags.contains(Flag::Plain));
                if exists|i: int| 0 <= i < flags.len() && #[trigger] flags[i] is Browser {
                    let i = choose|i: int|
                        {
                            &&& 0 <= i < flags.len()
                            &&& #[trigger] flags[i] == Flag::Browser(browser)
                            &&& forall|j: int| i < j < flags.len() ==> #[trigger] flags[j] is Plain
                        };
                    assert(init[i] == Flag::Browser(browser));
                } else {
                    assert forall|i: int| 0 <= i < init.len() implies #[trigger] init[i] is Plain by {
                        assert(!(flags[i] is Browser));
                    }
                }
                assert(is_last_browser(init, browser));
                let next = seq!["--plain"@] + rest;
                lemma_flags_are_read(init, browser, next);
                assert(written_flags(flags) + rest =~= w + next);
                assert(next.skip(1) =~= rest);
            },
            Flag::Browser(b) => {
                assert(flags[flags.len() - 1] == Flag::Browser(b));
                assert(b == browser);
                let earlier = lemma_last_browser(init);
                let next = seq!["--browser"@, browser] + rest;
                lemma_flags_are_read(init, earlier, next);
                assert(written_flags(flags) + rest =~= w + next);
                assert(next.skip(2) =~= rest);
                assert(flags.contains(Flag::Plain) == init.contains(Flag::Plain)) by {
                    if flags.contains(Flag::Plain) {
                        let i = choose|i: int| 0 <= i < flags.len() && flags[i] == Flag::Plain;
                        assert(init[i] == Flag::Plain);
                    }
                    if init.contains(Flag::Plain) {
                        let i = choose|i: int| 0 <= i < init.len() && init[i] == Flag::Plain;
                        assert(flags[i] == Flag::Plain);
                    }
                }
            },
        }
    }
}

proof fn lemma_last_browser(flags: Seq<Flag>) -> (browser: Seq<char>)
    ensures
        is_last_browser(flags, browser),
    decreases flags.len(),
{
    if flags.len() == 0 {
        "chrome"@
    } else {
        match flags.last() {
            Flag::Browser(browser) => {
                assert(flags[flags.len() - 1] == Flag::Browser(browser));
                browser
            },
            Flag::Plain => {
                let init = flags.drop_last();
                let browser = lemma_last_browser(init);
                if exists|i: int| 0 <= i < init.len() && #[trigger] init[i] is Browser {
                    let i = choose|i: int|
                        {
                            &&& 0 <= i < init.len()
                            &&& #[trigger] init[i] == Flag::Browser(browser)
                            &&& forall|j: int| i < j < init.len() ==> #[trigger] init[j] is Plain
                        };
                    assert(flags[i] == Flag::Browser(browser));
                    assert forall|j: int| i < j < flags.len() implies #[trigger] flags[j] is Plain by {
                        if j < init.len() {
                            assert(init[j] is Plain);
                        }
                    }
                } else {
                    assert forall|i: int| 0 <= i < flags.len() implies #[trigger] flags[i] is Plain by {
                        if i < init.len() {
                            assert(!(init[i] is Browser));
                        }
                    }
                }
                browser
            },
        }
    }
}

/// What flags ask for is seen as it is.
pub proof fn law_start_is_seen_whole(start: Start)
    ensures
        match start {
            Start::Help => start@ == StartView::Help,
            Start::Usage => start@ == StartView::Usage,
            Start::Invalid(message) => start@ == StartView::Invalid(message@),
            Start::Run { plain, browser, words } => start@ == (StartView::Run {
                plain,
                browser: browser@,
                words: views(words@),
            }),
        },
{
}

} // verus!
