//! Telling Windows which files the program opens: the arguments of the `reg` commands that enter
//! it for the current user, and of those that take it out again.

use crate::text::begins;
use vstd::prelude::*;

verus! {

/// The name under which Windows knows the kind of file.
pub const PROGID: &'static str = "TagTiger.Movie";

/// Where the program's kind of file is entered.
pub open spec fn class_key() -> Seq<char> {
    "HKCU\\Software\\Classes\\"@ + PROGID@
}

/// Where the openers of an extension are entered.
pub open spec fn openers_key(ext: Seq<char>) -> Seq<char> {
    "HKCU\\Software\\Classes\\."@ + ext + "\\OpenWithProgids"@
}

/// The arguments that enter the default value of a key.
pub open spec fn add_value(key: Seq<char>, value: Seq<char>) -> Seq<Seq<char>> {
    seq!["add"@, key, "/ve"@, "/d"@, value, "/f"@]
}

/// The arguments that enter the program as an opener of an extension.
pub open spec fn add_opener(ext: Seq<char>) -> Seq<Seq<char>> {
    seq!["add"@, openers_key(ext), "/v"@, PROGID@, "/t"@, "REG_NONE"@, "/f"@]
}

/// The arguments that take the program out of the openers of an extension.
pub open spec fn delete_opener(ext: Seq<char>) -> Seq<Seq<char>> {
    seq!["delete"@, openers_key(ext), "/v"@, PROGID@, "/f"@]
}

/// How a file is opened with a program: the program and the file, each in quotes.
pub open spec fn open_command(exe: Seq<char>) -> Seq<char> {
    "\""@ + exe + "\" \"%1\""@
}

/// The commands that enter a program, in order.
pub open spec fn entering(exe: Seq<char>) -> Seq<Seq<Seq<char>>> {
    seq![
        add_value(class_key(), "MPEG-4 Movie"@),
        add_value(class_key() + "\\shell\\open\\command"@, open_command(exe)),
        add_value(class_key() + "\\DefaultIcon"@, exe + ",0"@),
        add_opener("mp4"@),
        add_opener("m4v"@),
    ]
}

/// The commands that take the program out again, in order.
pub open spec fn removing() -> Seq<Seq<Seq<char>>> {
    seq![
        seq!["delete"@, class_key(), "/f"@],
        delete_opener("mp4"@),
        delete_opener("m4v"@),
    ]
}

/// Where the program's kind of file is entered.
fn build_class_key() -> (r: String)
    ensures
        r@ == class_key(),
{
    "HKCU\\Software\\Classes\\".to_string().concat(PROGID)
}

/// Where the openers of an extension are entered.
fn build_openers_key(ext: &str) -> (r: String)
    ensures
        r@ == openers_key(ext@),
{
    "HKCU\\Software\\Classes\\.".to_string().concat(ext).concat("\\OpenWithProgids")
}

/// The arguments that enter the default value of a key.
fn build_add_value(key: String, value: String) -> (r: Vec<String>)
    ensures
        r.deep_view() == add_value(key@, value@),
{
    let mut v: Vec<String> = Vec::new();
    v.push("add".to_string());
    v.push(key);
    v.push("/ve".to_string());
    v.push("/d".to_string());
    v.push(value);
    v.push("/f".to_string());
    assert(v.deep_view() =~= add_value(key@, value@));
    v
}

/// The arguments that enter the program as an opener of an extension.
fn build_add_opener(ext: &str) -> (r: Vec<String>)
    ensures
        r.deep_view() == add_opener(ext@),
{
    let mut v: Vec<String> = Vec::new();
    v.push("add".to_string());
    v.push(build_openers_key(ext));
    v.push("/v".to_string());
    v.push(PROGID.to_string());
    v.push("/t".to_string());
    v.push("REG_NONE".to_string());
    v.push("/f".to_string());
    assert(v.deep_view() =~= add_opener(ext@));
    v
}

/// The arguments that take the program out of the openers of an extension.
fn build_delete_opener(ext: &str) -> (r: Vec<String>)
    ensures
        r.deep_view() == delete_opener(ext@),
{
    let mut v: Vec<String> = Vec::new();
    v.push("delete".to_string());
    v.push(build_openers_key(ext));
    v.push("/v".to_string());
    v.push(PROGID.to_string());
    v.push("/f".to_string());
    assert(v.deep_view() =~= delete_opener(ext@));
    v
}

/// How a file is opened with a program.
pub fn exe_command(exe: &str) -> (r: String)
    ensures
        r@ == open_command(exe@),
{
    "\"".to_string().concat(exe).concat("\" \"%1\"")
}

/// The arguments of the commands that enter a program as an opener of movies. The program is listed
/// among the openers; the user's choice of a default is left alone.
pub fn register(exe: &str) -> (r: Vec<Vec<String>>)
    ensures
        r.deep_view() == entering(exe@),
{
    let mut v: Vec<Vec<String>> = Vec::new();
    v.push(build_add_value(build_class_key(), "MPEG-4 Movie".to_string()));
    v.push(
        build_add_value(build_class_key().concat("\\shell\\open\\command"), exe_command(exe)),
    );
    v.push(build_add_value(build_class_key().concat("\\DefaultIcon"), exe.to_string().concat(",0")));
    v.push(build_add_opener("mp4"));
    v.push(build_add_opener("m4v"));
    assert(v.deep_view() =~= entering(exe@));
    v
}

/// The arguments of the commands that take the program out again.
pub fn unregister() -> (r: Vec<Vec<String>>)
    ensures
        r.deep_view() == removing(),
{
    let mut v: Vec<Vec<String>> = Vec::new();
    let mut first: Vec<String> = Vec::new();
    first.push("delete".to_string());
    first.push(build_class_key());
    first.push("/f".to_string());
    assert(first.deep_view() =~= seq!["delete"@, class_key(), "/f"@]);
    v.push(first);
    v.push(build_delete_opener("mp4"));
    v.push(build_delete_opener("m4v"));
    assert(v.deep_view() =~= removing());
    v
}

/// Whether a command of the removal undoes one of the registration: it deletes the key that was
/// entered or one above it, or the same value of the same key.
pub open spec fn undoes(removal: Seq<Seq<char>>, entry: Seq<Seq<char>>) -> bool {
    ||| removal.len() == 3 && begins(entry[1], removal[1])
    ||| removal[1] == entry[1] && removal[2] == entry[2] && removal[3] == entry[3]
}

/// Everything that the registration enters, the removal takes out again.
pub proof fn law_removal_covers_registration(exe: Seq<char>, i: int)
    requires
        0 <= i < entering(exe).len(),
    ensures
        exists|k: int| 0 <= k < removing().len() && undoes(#[trigger] removing()[k], entering(exe)[i]),
{
    let entry = entering(exe)[i];
    if i < 3 {
        assert(removing()[0].len() == 3);
        assert(entry[1].subrange(0, class_key().len() as int) =~= class_key());
        assert(undoes(removing()[0], entry));
    } else {
        assert(undoes(removing()[i - 2], entry));
    }
}

/// Both kinds of movie file open with the program: it is entered under its class with a command
/// that hands it the file, each in quotes, and as an opener for each of the two extensions.
pub proof fn law_both_extensions_open_with_the_program(exe: Seq<char>)
    ensures
        entering(exe).len() == 5,
        entering(exe)[0] == seq![
            "add"@,
            "HKCU\\Software\\Classes\\"@ + "TagTiger.Movie"@,
            "/ve"@,
            "/d"@,
            "MPEG-4 Movie"@,
            "/f"@,
        ],
        entering(exe)[1] == seq![
            "add"@,
            "HKCU\\Software\\Classes\\"@ + "TagTiger.Movie"@ + "\\shell\\open\\command"@,
            "/ve"@,
            "/d"@,
            "\""@ + exe + "\" \"%1\""@,
            "/f"@,
        ],
        entering(exe)[2] == seq![
            "add"@,
            "HKCU\\Software\\Classes\\"@ + "TagTiger.Movie"@ + "\\DefaultIcon"@,
            "/ve"@,
            "/d"@,
            exe + ",0"@,
            "/f"@,
        ],
        entering(exe)[3] == seq![
            "add"@,
            "HKCU\\Software\\Classes\\."@ + "mp4"@ + "\\OpenWithProgids"@,
            "/v"@,
            "TagTiger.Movie"@,
            "/t"@,
            "REG_NONE"@,
            "/f"@,
        ],
        entering(exe)[4] == seq![
            "add"@,
            "HKCU\\Software\\Classes\\."@ + "m4v"@ + "\\OpenWithProgids"@,
            "/v"@,
            "TagTiger.Movie"@,
            "/t"@,
            "REG_NONE"@,
            "/f"@,
        ],
{
}

/// Removing takes out the class and the two openers, and nothing else: each command deletes what
/// the program entered under its own name.
pub proof fn law_removal_takes_out_no_more()
    ensures
        removing().len() == 3,
        removing()[0] == seq![
            "delete"@,
            "HKCU\\Software\\Classes\\"@ + "TagTiger.Movie"@,
            "/f"@,
        ],
        removing()[1] == seq![
            "delete"@,
            "HKCU\\Software\\Classes\\."@ + "mp4"@ + "\\OpenWithProgids"@,
            "/v"@,
            "TagTiger.Movie"@,
            "/f"@,
        ],
        removing()[2] == seq![
            "delete"@,
            "HKCU\\Software\\Classes\\."@ + "m4v"@ + "\\OpenWithProgids"@,
            "/v"@,
            "TagTiger.Movie"@,
            "/f"@,
        ],
{
}

} // verus!
