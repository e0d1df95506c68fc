//! Putting the command line tool where a shell finds it, on macOS.

use crate::text::{
    contains, holds, lemma_find_from, replace, replaced, stands_at, trim, trimmed,
};
use vstd::prelude::*;

verus! {

/// Where the tool is linked to.
pub const CLI_DEST: &'static str = "/usr/local/bin/tagtiger";

/// How the tool is installed.
#[derive(Debug)]
pub enum InstallStep {
    /// By a link that the program itself makes.
    Link,
    /// By a script that asks for the rights of an administrator.
    Script(String),
}

/// A text between single quotes of a shell.
pub open spec fn shell_quoted(s: Seq<char>) -> Seq<char> {
    "'"@ + replaced(s, "'"@, "'\\''"@) + "'"@
}

/// The shell command that links the tool.
pub open spec fn link_command(src: Seq<char>) -> Seq<char> {
    "mkdir -p /usr/local/bin && ln -sf "@ + shell_quoted(src) + " "@ + shell_quoted(CLI_DEST@)
}

/// A text between double quotes of AppleScript.
pub open spec fn script_quoted(s: Seq<char>) -> Seq<char> {
    "\""@ + replaced(replaced(s, "\\"@, "\\\\"@), "\""@, "\\\""@) + "\""@
}

/// The script that links the tool with the rights of an administrator.
pub open spec fn link_script(src: Seq<char>) -> Seq<char> {
    "do shell script "@ + script_quoted(link_command(src)) + " with administrator privileges"@
}

/// A text between single quotes of a shell.
fn quote_for_shell(s: &str) -> (r: String)
    ensures
        r@ == shell_quoted(s@),
{
    proof {
        reveal_strlit("'");
    }
    "'".to_string().concat(replace(s, "'", "'\\''").as_str()).concat("'")
}

/// A text between double quotes of AppleScript.
fn quote_for_script(s: &str) -> (r: String)
    ensures
        r@ == script_quoted(s@),
{
    proof {
        reveal_strlit("\\");
        reveal_strlit("\"");
    }
    let slashed = replace(s, "\\", "\\\\");
    "\"".to_string().concat(replace(slashed.as_str(), "\"", "\\\"").as_str()).concat("\"")
}

/// How the tool is installed: by a link where the folder can be written to, else by a script.
pub fn plan_install(src: &str, writable: bool) -> (r: InstallStep)
    ensures
        match r {
            InstallStep::Link => writable,
            InstallStep::Script(s) => !writable && s@ == link_script(src@),
        },
{
    if writable {
        return InstallStep::Link;
    }
    let command = "mkdir -p /usr/local/bin && ln -sf ".to_string().concat(
        quote_for_shell(src).as_str(),
    ).concat(" ").concat(quote_for_shell(CLI_DEST).as_str());
    InstallStep::Script(
        "do shell script ".to_string().concat(quote_for_script(command.as_str()).as_str()).concat(
            " with administrator privileges",
        ),
    )
}

/// How an installation ended.
#[derive(Debug)]
pub enum InstallEnd {
    /// The program does not know where it is.
    NoProgram(String),
    /// The tool is not beside the program.
    NoTool,
    /// The tool was installed.
    Installed,
    /// The link could not be made.
    LinkFailed(String),
    /// The script failed, with these words.
    ScriptFailed(String),
    /// The script could not be run.
    NotRun(String),
}

/// What is said of how an installation ended.
pub open spec fn install_text(end: InstallEnd) -> Seq<char> {
    match end {
        InstallEnd::NoProgram(e) => "Couldn't locate the app executable: "@ + e@,
        InstallEnd::NoTool => "Couldn't find the bundled CLI (tagtiger-cli) next to the app."@,
        InstallEnd::Installed => "Installed CLI: run `tagtiger --help`. ("@ + CLI_DEST@ + ")"@,
        InstallEnd::LinkFailed(e) => "Failed to install CLI: "@ + e@,
        InstallEnd::ScriptFailed(e) => if holds(e@, "User canceled"@) || holds(e@, "(-128)"@) {
            "CLI install cancelled."@
        } else {
            "Failed to install CLI: "@ + trimmed(e@)
        },
        InstallEnd::NotRun(e) => "Failed to run installer: "@ + e@,
    }
}

/// What is said of how an installation ended. A user who refuses the rights has cancelled it.
pub fn install_message(end: &InstallEnd) -> (r: String)
    ensures
        r@ == install_text(*end),
{
    match end {
        InstallEnd::NoProgram(e) => "Couldn't locate the app executable: ".to_string().concat(
            e.as_str(),
        ),
        InstallEnd::NoTool =>
            "Couldn't find the bundled CLI (tagtiger-cli) next to the app.".to_string(),
        InstallEnd::Installed => "Installed CLI: run `tagtiger --help`. (".to_string().concat(
            CLI_DEST,
        ).concat(")"),
        InstallEnd::LinkFailed(e) => "Failed to install CLI: ".to_string().concat(e.as_str()),
        InstallEnd::ScriptFailed(e) => if contains(e.as_str(), "User canceled") || contains(
            e.as_str(),
            "(-128)",
        ) {
            "CLI install cancelled.".to_string()
        } else {
            "Failed to install CLI: ".to_string().concat(trim(e.as_str()).as_str())
        },
        InstallEnd::NotRun(e) => "Failed to run installer: ".to_string().concat(e.as_str()),
    }
}

// ---------------------------------------------------------------------------
// Laws
// ---------------------------------------------------------------------------

/// What a shell makes of the characters of a word: those between single quotes stand for
/// themselves, outside of them a backslash does away with the meaning of the next one.
pub open spec fn shell_read(s: Seq<char>, quoted: bool) -> Seq<char>
    decreases s.len(),
{
    if s.len() == 0 {
        Seq::empty()
    } else if s[0] == '\'' {
        shell_read(s.skip(1), !quoted)
    } else if !quoted && s[0] == '\\' && s.len() >= 2 {
        seq![s[1]] + shell_read(s.skip(2), quoted)
    } else {
        seq![s[0]] + shell_read(s.skip(1), quoted)
    }
}

/// What AppleScript makes of the characters behind a double quote, up to the next one: a backslash
/// does away with the meaning of the next one.
pub open spec fn script_read(s: Seq<char>) -> Seq<char>
    decreases s.len(),
{
    if s.len() == 0 || s[0] == '"' {
        Seq::empty()
    } else if s[0] == '\\' && s.len() >= 2 {
        seq![s[1]] + script_read(s.skip(2))
    } else {
        seq![s[0]] + script_read(s.skip(1))
    }
}

/// Replacing a single character goes character by character.
proof fn lemma_replace_one(s: Seq<char>, from: Seq<char>, to: Seq<char>)
    requires
        from.len() == 1,
        s.len() > 0,
    ensures
        replaced(s, from, to) == (if s[0] == from[0] {
            to
        } else {
            seq![s[0]]
        }) + replaced(s.skip(1), from, to),
{
    assert(s.subrange(0, 1) =~= seq![s[0]]);
    assert(from =~= seq![from[0]]);
    assert(s.skip(1) =~= s.drop_first());
    if s[0] != from[0] {
        assert(seq![s[0]][0] != seq![from[0]][0]);
    }
}

proof fn lemma_replace_concat(a: Seq<char>, b: Seq<char>, from: Seq<char>, to: Seq<char>)
    requires
        from.len() == 1,
    ensures
        replaced(a + b, from, to) == replaced(a, from, to) + replaced(b, from, to),
    decreases a.len(),
{
    if a.len() == 0 {
        assert(a + b =~= b);
        assert(replaced(a, from, to) + replaced(b, from, to) =~= replaced(b, from, to));
    } else {
        lemma_replace_one(a + b, from, to);
        lemma_replace_one(a, from, to);
        assert((a + b).skip(1) =~= a.skip(1) + b);
        lemma_replace_concat(a.skip(1), b, from, to);
        assert(replaced(a + b, from, to) =~= replaced(a, from, to) + replaced(b, from, to));
    }
}

proof fn lemma_shell_reads(s: Seq<char>)
    ensures
        shell_read(replaced(s, "'"@, "'\\''"@) + "'"@, true) == s,
    decreases s.len(),
{
    reveal_strlit("'");
    reveal_strlit("'\\''");
    let quote = "'"@;
    let escape = "'\\''"@;
    let all = replaced(s, quote, escape) + quote;
    if s.len() == 0 {
        assert(all =~= quote);
        assert(all.skip(1) =~= Seq::<char>::empty());
        assert(shell_read(all.skip(1), false) =~= Seq::<char>::empty());
        assert(shell_read(all, true) =~= s);
    } else {
        let rest = replaced(s.skip(1), quote, escape) + quote;
        lemma_shell_reads(s.skip(1));
        lemma_replace_one(s, quote, escape);
        if s[0] == '\'' {
            assert(all =~= escape + rest);
            let one = all.skip(1);
            let three = one.skip(2);
            assert(all[0] == '\'' && one[0] == '\\' && one[1] == '\'' && three[0] == '\'');
            assert(three.skip(1) =~= rest);
            assert(shell_read(three, false) == shell_read(rest, true));
            assert(shell_read(one, false) == seq!['\''] + shell_read(three, false));
        } else {
            assert(all =~= seq![s[0]] + rest);
            assert(all.skip(1) =~= rest);
        }
        assert(shell_read(all, true) =~= seq![s[0]] + s.skip(1));
        assert(seq![s[0]] + s.skip(1) =~= s);
    }
}

proof fn lemma_script_reads(s: Seq<char>)
    ensures
        script_read(replaced(replaced(s, "\\"@, "\\\\"@), "\""@, "\\\""@) + "\""@) == s,
    decreases s.len(),
{
    reveal_strlit("\\");
    reveal_strlit("\\\\");
    reveal_strlit("\"");
    reveal_strlit("\\\"");
    let slash = "\\"@;
    let slashes = "\\\\"@;
    let quote = "\""@;
    let escape = "\\\""@;
    let all = replaced(replaced(s, slash, slashes), quote, escape) + quote;
    if s.len() == 0 {
        assert(replaced(s, slash, slashes) =~= s);
        assert(all =~= quote);
        assert(script_read(all) =~= s);
    } else {
        let tail = replaced(s.skip(1), slash, slashes);
        let rest = replaced(tail, quote, escape) + quote;
        lemma_script_reads(s.skip(1));
        lemma_replace_one(s, slash, slashes);
        let head = if s[0] == '\\' {
            slashes
        } else {
            seq![s[0]]
        };
        lemma_replace_concat(head, tail, quote, escape);
        lemma_replace_one(head, quote, escape);
        let none = Seq::<char>::empty();
        if s[0] == '\\' {
            lemma_replace_one(head.skip(1), quote, escape);
            assert(head.skip(1).skip(1) =~= none);
            assert(replaced(head, quote, escape) =~= slashes);
            assert(all =~= slashes + rest);
            assert(all[0] == '\\' && all[1] == '\\');
            assert(all.skip(2) =~= rest);
        } else if s[0] == '"' {
            assert(head.skip(1) =~= none);
            assert(replaced(head, quote, escape) =~= escape);
            assert(all =~= escape + rest);
            assert(all[0] == '\\' && all[1] == '"');
            assert(all.skip(2) =~= rest);
        } else {
            assert(head.skip(1) =~= none);
            assert(replaced(head, quote, escape) =~= head);
            assert(all =~= head + rest);
            assert(all[0] == s[0]);
            assert(all.skip(1) =~= rest);
        }
        assert(script_read(all) =~= seq![s[0]] + s.skip(1));
        assert(seq![s[0]] + s.skip(1) =~= s);
    }
}

/// Whatever characters a path holds, the shell reads it back from its quoted form, and AppleScript
/// reads a command back from its own.
pub proof fn law_quoted_text_reads_back(s: Seq<char>)
    ensures
        shell_read(shell_quoted(s), false) == s,
        script_read(script_quoted(s).skip(1)) == s,
{
    reveal_strlit("'");
    reveal_strlit("\"");
    lemma_shell_reads(s);
    lemma_script_reads(s);
    assert(shell_quoted(s).skip(1) =~= replaced(s, "'"@, "'\\''"@) + "'"@);
    assert(script_quoted(s).skip(1) =~= replaced(
        replaced(s, "\\"@, "\\\\"@),
        "\""@,
        "\\\""@,
    ) + "\""@);
}

/// The command makes the directory and puts a link to the program there under the name of the tool;
/// the program and the place are quoted, so that a shell reads them as they are.
pub proof fn law_command_links_the_program(src: Seq<char>)
    ensures
        link_command(src) == "mkdir -p /usr/local/bin && ln -sf "@ + shell_quoted(src) + " "@
            + shell_quoted("/usr/local/bin/tagtiger"@),
        shell_read(shell_quoted(src), false) == src,
        shell_read(shell_quoted("/usr/local/bin/tagtiger"@), false) == "/usr/local/bin/tagtiger"@,
        link_script(src) == "do shell script "@ + script_quoted(link_command(src))
            + " with administrator privileges"@,
        script_read(script_quoted(link_command(src)).skip(1)) == link_command(src),
{
    law_quoted_text_reads_back(src);
    law_quoted_text_reads_back("/usr/local/bin/tagtiger"@);
    law_quoted_text_reads_back(link_command(src));
}

/// How an installation ended is told with what went wrong. A script that failed was cancelled
/// exactly where its message says so, by its words or by its number; else the message is told
/// without the white space around it.
pub proof fn law_cancelling_is_no_failure(e: String)
    ensures
        ({
            let told = install_text(InstallEnd::ScriptFailed(e));
            let cancelled = (exists|i: int| #[trigger] stands_at(e@, "User canceled"@, i)) || (
            exists|i: int| #[trigger] stands_at(e@, "(-128)"@, i));
            &&& cancelled ==> told == "CLI install cancelled."@
            &&& !cancelled ==> told == "Failed to install CLI: "@ + trimmed(e@)
        }),
        install_text(InstallEnd::LinkFailed(e)) == "Failed to install CLI: "@ + e@,
        install_text(InstallEnd::NotRun(e)) == "Failed to run installer: "@ + e@,
        install_text(InstallEnd::NoProgram(e)) == "Couldn't locate the app executable: "@ + e@,
        install_text(InstallEnd::NoTool)
            == "Couldn't find the bundled CLI (tagtiger-cli) next to the app."@,
        install_text(InstallEnd::Installed) == "Installed CLI: run `tagtiger --help`. ("@
            + "/usr/local/bin/tagtiger"@ + ")"@,
{
    lemma_find_from(e@, "User canceled"@, 0);
    lemma_find_from(e@, "(-128)"@, 0);
    if exists|i: int| #[trigger] stands_at(e@, "User canceled"@, i) {
        let i = choose|i: int| #[trigger] stands_at(e@, "User canceled"@, i);
        assert(stands_at(e@, "User canceled"@, i));
    }
    if exists|i: int| #[trigger] stands_at(e@, "(-128)"@, i) {
        let i = choose|i: int| #[trigger] stands_at(e@, "(-128)"@, i);
        assert(stands_at(e@, "(-128)"@, i));
    }
}

} // verus!
