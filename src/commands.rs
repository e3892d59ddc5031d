//! Answers to the commands that chat users send: greetings, help, and
//! `track`, which changes what the user tracks.

use vstd::prelude::*;
use vstd::string::StrSliceExecFns;
use crate::registry::{TrackerRegistry, RegistryView, retarget_view, consistent};

verus! {

/// The text of `s` in lower case.
pub uninterp spec fn lower_of(s: Seq<char>) -> Seq<char>;

/// Relies on `str::to_lowercase`: the lower-case form of a text depends on
/// its characters alone.
#[verifier::external_body]
fn lowercase(s: &str) -> (r: String)
    ensures
        r@ == lower_of(s@),
{
    s.to_lowercase()
}

/// The first word of a message: the text before its first space.
pub open spec fn command_word(s: Seq<char>) -> Seq<char>
    decreases s.len(),
{
    if s.len() == 0 || s[0] == ' ' {
        Seq::empty()
    } else {
        seq![s[0]] + command_word(s.drop_first())
    }
}

/// The arguments of a message: the text after its first space, or nothing.
pub open spec fn command_args(s: Seq<char>) -> Seq<char>
    decreases s.len(),
{
    if s.len() == 0 {
        Seq::empty()
    } else if s[0] == ' ' {
        s.drop_first()
    } else {
        command_args(s.drop_first())
    }
}

proof fn lemma_split_at_space(s: Seq<char>, i: int)
    requires
        0 <= i <= s.len(),
        forall|j: int| 0 <= j < i ==> s[j] != ' ',
        i < s.len() ==> s[i] == ' ',
    ensures
        command_word(s) == s.take(i),
        command_args(s) == if i < s.len() {
            s.subrange(i + 1, s.len() as int)
        } else {
            Seq::<char>::empty()
        },
    decreases i,
{
    if i > 0 {
        let t = s.drop_first();
        assert forall|j: int| 0 <= j < i - 1 implies t[j] != ' ' by {
            assert(t[j] == s[j + 1]);
        }
        lemma_split_at_space(t, i - 1);
        assert(s.take(i) =~= seq![s[0]] + t.take(i - 1));
        if i < s.len() {
            assert(t.subrange(i, t.len() as int) =~= s.subrange(i + 1, s.len() as int));
        }
    } else if s.len() > 0 {
        assert(s.take(0) =~= Seq::<char>::empty());
        assert(s.drop_first() =~= s.subrange(1, s.len() as int));
    } else {
        assert(s.take(0) =~= Seq::<char>::empty());
    }
}

/// The tutorial, line by line.
pub open spec fn tutorial_lines() -> Seq<Seq<char>> {
    seq![
        "Hi, I'm articlebot, a utility designed to notify you whenever your Trello cards have been moved."@,
        "You can interact with me through commands. Commands are given in the form [COMMAND] [ARGUMENTS]."@,
        "[COMMAND] is usually a single word, specifying some action. I intrepret the first word you type as your command."@,
        "[ARGUMENTS] is whatever comes after your command. Some commands require you to specify arguments."@,
        "An valid example command is `track johndoe42`. In this case, `track` is the command and `johndoe42` is the argument."@,
        "Please type in `help` for a list of commands."@,
    ]
}

/// The list of commands, line by line.
pub open spec fn help_lines() -> Seq<Seq<char>> {
    seq![
        "If you have not already, type in `tutorial` for an overview of the command system."@,
        "Here is a list of valid commands and their descriptions:"@,
        "`hello` and `hi` display a nice greeting."@,
        "`version` displays articlebot's version number."@,
        "`tutorial` displays an overview of how commands work."@,
        "`help` displays a list of valid commands."@,
        "`tracking` displays who you are following on Trello."@,
        "`track [USERNAME]` tells articlebot that you wish to follow card movements for [USERNAME] on Trello."@,
    ]
}

/// The answer to `command` with `args`, given the program's `version` and
/// what the user tracked before, if anything.
pub open spec fn command_replies(
    command: Seq<char>,
    args: Seq<char>,
    version: Seq<char>,
    tracking: Option<Seq<char>>,
) -> Seq<Seq<char>> {
    if command == "hello"@ || command == "hi"@ {
        seq!["Hello there."@]
    } else if command == "version"@ {
        seq!["Running v"@ + version + "."@]
    } else if command == "tutorial"@ {
        tutorial_lines()
    } else if command == "help"@ {
        help_lines()
    } else if command == "tracking"@ {
        match tracking {
            Some(t) => seq!["You are currently tracking *"@ + t + "* on Trello."@],
            None => seq!["You are currently not tracking a Trello user."@],
        }
    } else if command == "track"@ {
        seq!["You will now be notified when *"@ + args + "*'s articles are moved in Trello."@]
    } else {
        seq![
            "I did not understand your command `"@ + command + "`."@,
            "Try typing in `help` to see a list of available commands."@,
        ]
    }
}

/// The registry once `user`, writing on `channel`, has sent `command` with
/// `args`: only `track` changes it.
pub open spec fn command_effect(
    reg: RegistryView,
    command: Seq<char>,
    args: Seq<char>,
    user: Seq<char>,
    channel: Seq<char>,
) -> RegistryView {
    if command == "track"@ {
        retarget_view(reg, user, channel, args)
    } else {
        reg
    }
}

/// What `user` tracks in `reg`, if anything.
pub open spec fn tracking_of(reg: RegistryView, user: Seq<char>) -> Option<Seq<char>> {
    if reg.trackers.contains_key(user) {
        Some(reg.trackers[user].target_name)
    } else {
        None
    }
}

fn is_word(s: &str, word: &str) -> (r: bool)
    ensures
        r == (s@ == word@),
{
    String::from_str(s) == String::from_str(word)
}

/// Answers the commands of chat users.
pub struct CommandHandler {
    version: String,
}

impl CommandHandler {
    /// The version the handler reports.
    pub closed spec fn version(&self) -> Seq<char> {
        self.version@
    }

    pub fn new(version: &str) -> (r: CommandHandler)
        ensures
            r.version() == version@,
    {
        CommandHandler { version: String::from_str(version) }
    }

    /// Answers `command` (in lower case) with `args`, sent by `user` on
    /// `channel`; `track` makes the user track `args`.
    pub fn on_command(
        &self,
        registry: &mut TrackerRegistry,
        command: &str,
        args: &str,
        user: &String,
        channel: &String,
    ) -> (r: Vec<String>)
        requires
            old(registry).wf(),
        ensures
            final(registry).wf(),
            final(registry)@ == command_effect(old(registry)@, command@, args@, user@, channel@),
            consistent(old(registry)@) ==> consistent(final(registry)@),
            r@.map_values(|s: String| s@) == command_replies(
                command@,
                args@,
                self.version(),
                tracking_of(old(registry)@, user@),
            ),
    {
        proof {
            reveal_strlit("hello");
            reveal_strlit("hi");
            reveal_strlit("version");
            reveal_strlit("tutorial");
            reveal_strlit("help");
            reveal_strlit("tracking");
            reveal_strlit("track");
            assert("hello"@[0] != "track"@[0]);
            assert("hello"@ != "track"@);
            assert("hi"@.len() != "track"@.len());
            assert("version"@.len() != "track"@.len());
            assert("tutorial"@.len() != "track"@.len());
            assert("help"@.len() != "track"@.len());
            assert("tracking"@.len() != "track"@.len());
        }
        let mut r: Vec<String> = Vec::new();
        if is_word(command, "hello") || is_word(command, "hi") {
            r.push(String::from_str("Hello there."));
        } else if is_word(command, "version") {
            let mut t = String::from_str("Running v");
            t.append(self.version.as_str());
            t.append(".");
            r.push(t);
        } else if is_word(command, "tutorial") {
        r.push(String::from_str("Hi, I'm articlebot, a utility designed to notify you whenever your Trello cards have been moved."));
        r.push(String::from_str("You can interact with me through commands. Commands are given in the form [COMMAND] [ARGUMENTS]."));
        r.push(String::from_str("[COMMAND] is usually a single word, specifying some action. I intrepret the first word you type as your command."));
        r.push(String::from_str("[ARGUMENTS] is whatever comes after your command. Some commands require you to specify arguments."));
        r.push(String::from_str("An valid example command is `track johndoe42`. In this case, `track` is the command and `johndoe42` is the argument."));
        r.push(String::from_str("Please type in `help` for a list of commands."));
        } else if is_word(command, "help") {
        r.push(String::from_str("If you have not already, type in `tutorial` for an overview of the command system."));
        r.push(String::from_str("Here is a list of valid commands and their descriptions:"));
        r.push(String::from_str("`hello` and `hi` display a nice greeting."));
        r.push(String::from_str("`version` displays articlebot's version number."));
        r.push(String::from_str("`tutorial` displays an overview of how commands work."));
        r.push(String::from_str("`help` displays a list of valid commands."));
        r.push(String::from_str("`tracking` displays who you are following on Trello."));
        r.push(String::from_str("`track [USERNAME]` tells articlebot that you wish to follow card movements for [USERNAME] on Trello."));
        } else if is_word(command, "tracking") {
            match registry.get_target(user) {
                Some(target) => {
                    let mut t = String::from_str("You are currently tracking *");
                    t.append(target.as_str());
                    t.append("* on Trello.");
                    r.push(t);
                },
                None => {
                    r.push(String::from_str("You are currently not tracking a Trello user."));
                },
            }
        } else if is_word(command, "track") {
            let target = String::from_str(args);
            registry.retarget(user, channel, &target);
            let mut t = String::from_str("You will now be notified when *");
            t.append(args);
            t.append("*'s articles are moved in Trello.");
            r.push(t);
        } else {
            let mut t = String::from_str("I did not understand your command `");
            t.append(command);
            t.append("`.");
            r.push(t);
            r.push(String::from_str("Try typing in `help` to see a list of available commands."));
        }
        assert(r@.map_values(|s: String| s@) =~= command_replies(
            command@,
            args@,
            self.version(),
            tracking_of(old(registry)@, user@),
        ));
        r
    }

    /// Answers the message `text` from `user` on `channel`: its first word,
    /// in lower case, is the command, and the text after the first space
    /// its arguments.
    pub fn handle_message(&self, registry: &mut TrackerRegistry, text: &str, user: &String, channel: &String) -> (r: Vec<
        String,
    >)
        requires
            old(registry).wf(),
        ensures
            final(registry).wf(),
            final(registry)@ == command_effect(
                old(registry)@,
                lower_of(command_word(text@)),
                command_args(text@),
                user@,
                channel@,
            ),
            consistent(old(registry)@) ==> consistent(final(registry)@),
            r@.map_values(|s: String| s@) == command_replies(
                lower_of(command_word(text@)),
                command_args(text@),
                self.version(),
                tracking_of(old(registry)@, user@),
            ),
    {
        let n = text.unicode_len();
        let mut i: usize = 0;
        while i < n
            invariant
                n == text@.len(),
                i <= n,
                forall|j: int| 0 <= j < i ==> text@[j] != ' ',
            ensures
                i <= n,
                forall|j: int| 0 <= j < i ==> text@[j] != ' ',
                i < n ==> text@[i as int] == ' ',
            decreases n - i,
        {
            if text.get_char(i) == ' ' {
                break;
            }
            i += 1;
        }
        proof {
            lemma_split_at_space(text@, i as int);
        }
        let word = text.substring_char(0, i);
        let args = if i < n {
            text.substring_char(i + 1, n)
        } else {
            proof {
                reveal_strlit("");
            }
            assert(""@ =~= Seq::<char>::empty());
            ""
        };
        let command = lowercase(word);
        self.on_command(registry, command.as_str(), args, user, channel)
    }
}

} // verus!
