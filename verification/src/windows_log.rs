//! The log of the Windows helper, and where its files are: beside the
//! executable, where only administrators can write.
use crate::number;
use crate::number::numeral_chars;
use crate::text::{chars_of, string_of};
use crate::windows;
use crate::windows::win_join;
use vstd::prelude::*;
use vstd::string::*;

verus! {

/// The octets that a log file may hold before another one is begun.
pub const MAX_LOG_BYTES: u64 = 4194304;

/// Whether a path leads to one place, whatever the working directory is: it
/// begins with a drive and its root, or with the name of a server.
pub open spec fn is_absolute(path: Seq<char>) -> bool {
    ||| path.len() >= 3 && windows::is_drive(path.take(2)) && (path[2] == '\\' || path[2] == '/')
    ||| path.len() >= 2 && path[0] == '\\' && path[1] == '\\'
}

/// The directory of the executable, from what the system says about it.
pub open spec fn directory_of(parent: Option<String>) -> Option<Seq<char>> {
    match parent {
        Some(dir) => if is_absolute(dir@) {
            Some(dir@)
        } else {
            None
        },
        None => None,
    }
}

/// A file or a directory beside the executable.
pub open spec fn beside(parent: Option<String>, name: Seq<char>) -> Option<Seq<char>> {
    match directory_of(parent) {
        Some(dir) => Some(windows::win_joined(dir, name)),
        None => None,
    }
}

/// Whether an answer is a path, where there is one, or says that the
/// executable's directory is not known.
pub open spec fn leads_to(answer: Result<String, String>, path: Option<Seq<char>>) -> bool {
    match path {
        Some(p) => answer is Ok && answer->Ok_0@ == p && is_absolute(p),
        None => answer is Err && answer->Err_0@
            == "the directory of the helper is not known"@,
    }
}

fn absolute(path: &str) -> (r: bool)
    ensures
        r == is_absolute(path@),
{
    let cs = chars_of(path);
    if cs.len() >= 2 && cs[0] == '\\' && cs[1] == '\\' {
        return true;
    }
    if cs.len() < 3 {
        return false;
    }
    let letter = ('a' <= cs[0] && cs[0] <= 'z') || ('A' <= cs[0] && cs[0] <= 'Z');
    letter && cs[1] == ':' && (cs[2] == '\\' || cs[2] == '/')
}

/// The directory of the executable. It never depends on the working
/// directory: where it is not known there is none.
pub fn executable_dir(parent: &Option<String>) -> (r: Result<String, String>)
    ensures
        leads_to(r, directory_of(*parent)),
        r is Ok <==> parent is Some && is_absolute(parent->0@),
        r is Ok ==> r->Ok_0@ == parent->0@,
        r is Err ==> r->Err_0@ == "the directory of the helper is not known"@,
{
    match parent {
        Some(dir) => if absolute(dir.as_str()) {
            Ok(dir.clone())
        } else {
            Err("the directory of the helper is not known".to_owned())
        },
        None => Err("the directory of the helper is not known".to_owned()),
    }
}

proof fn lemma_below_absolute(dir: Seq<char>, name: Seq<char>)
    requires
        is_absolute(dir),
    ensures
        is_absolute(windows::win_joined(dir, name)),
{
    let path = windows::win_joined(dir, name);
    assert(path.len() >= dir.len());
    assert(forall|i: int| 0 <= i < dir.len() ==> path[i] == dir[i]);
    if dir.len() >= 3 {
        assert(path.take(2) =~= dir.take(2));
    }
}

/// A file or a directory beside the executable.
pub(crate) fn path_beside(parent: &Option<String>, name: &str) -> (r: Result<String, String>)
    ensures
        leads_to(r, beside(*parent, name@)),
        r is Ok <==> parent is Some && is_absolute(parent->0@),
        r is Ok ==> r->Ok_0@ == windows::win_joined(parent->0@, name@),
        r is Err ==> r->Err_0@ == "the directory of the helper is not known"@,
{
    match executable_dir(parent) {
        Ok(dir) => {
            proof {
                lemma_below_absolute(dir@, name@);
            }
            Ok(win_join(dir.as_str(), name))
        },
        Err(e) => Err(e),
    }
}

/// The directory of the helper's state.
pub fn state_dir(parent: &Option<String>) -> (r: Result<String, String>)
    ensures
        leads_to(r, beside(*parent, "state"@)),
        r is Ok <==> parent is Some && is_absolute(parent->0@),
        r is Ok ==> r->Ok_0@ == windows::win_joined(parent->0@, "state"@),
{
    path_beside(parent, "state")
}

/// The directory of the logs.
pub fn log_dir(parent: &Option<String>) -> (r: Result<String, String>)
    ensures
        leads_to(r, beside(*parent, "logs"@)),
        r is Ok <==> parent is Some && is_absolute(parent->0@),
        r is Ok ==> r->Ok_0@ == windows::win_joined(parent->0@, "logs"@),
{
    path_beside(parent, "logs")
}

/// Whatever is kept beside the executable lies in its directory, and at an
/// absolute path.
pub proof fn the_files_lie_beside_the_executable(parent: Option<String>, name: Seq<char>)
    ensures
        beside(parent, name) is Some ==> parent is Some && is_absolute(parent->0@)
            && is_absolute(beside(parent, name)->0) && beside(parent, name)->0
            == windows::win_joined(parent->0@, name),
        beside(parent, name) is None <==> parent is None || !is_absolute(parent->0@),
{
    if directory_of(parent) is Some {
        lemma_below_absolute(parent->0@, name);
    }
}

/// The log file, and the one that it becomes when it is full.
pub fn log_files(log_dir: &str) -> (r: (String, String))
    ensures
        r.0@ == windows::win_joined(log_dir@, "helper.log"@),
        r.1@ == windows::win_joined(log_dir@, "helper.old.log"@),
{
    (win_join(log_dir, "helper.log"), win_join(log_dir, "helper.old.log"))
}

/// Whether another log file is begun. A file that is not there is not full.
pub fn log_is_full(len: Option<u64>) -> (r: bool)
    ensures
        r == (len is Some && len->0 > 4194304),
{
    match len {
        Some(n) => n > MAX_LOG_BYTES,
        None => false,
    }
}

/// A point in local time.
#[derive(Debug, Clone, Copy, PartialEq, Eq, Structural)]
pub struct LocalTime {
    pub year: u16,
    pub month: u16,
    pub day: u16,
    pub hour: u16,
    pub minute: u16,
    pub second: u16,
    pub milliseconds: u16,
}

/// A number with at least some digits.
pub open spec fn padded(n: u16, width: nat) -> Seq<char> {
    number::zero_padded(number::decimal(n as nat), width)
}

/// A point in time as the log shows it.
pub open spec fn time_text(t: LocalTime) -> Seq<char> {
    padded(t.year, 4) + "-"@ + padded(t.month, 2) + "-"@ + padded(t.day, 2) + " "@ + padded(
        t.hour,
        2,
    ) + ":"@ + padded(t.minute, 2) + ":"@ + padded(t.second, 2) + "."@ + padded(t.milliseconds, 3)
}

fn append_padded(s: &mut String, n: u16, width: usize)
    ensures
        final(s)@ == old(s)@ + padded(n, width as nat),
{
    s.append(string_of(numeral_chars(n as u64, 10, width).as_slice()).as_str());
}

/// A point in time as the log shows it.
pub fn timestamp(t: LocalTime) -> (r: String)
    ensures
        r@ == time_text(t),
{
    let mut s = String::new();
    append_padded(&mut s, t.year, 4);
    s.append("-");
    append_padded(&mut s, t.month, 2);
    s.append("-");
    append_padded(&mut s, t.day, 2);
    s.append(" ");
    append_padded(&mut s, t.hour, 2);
    s.append(":");
    append_padded(&mut s, t.minute, 2);
    s.append(":");
    append_padded(&mut s, t.second, 2);
    s.append(".");
    append_padded(&mut s, t.milliseconds, 3);
    assert(s@ =~= time_text(t));
    s
}

/// A line of the log.
pub fn log_line(t: LocalTime, message: &str) -> (r: String)
    ensures
        r@ == time_text(t) + " "@ + message@ + "\r\n"@,
{
    let mut s = timestamp(t);
    s.append(" ");
    s.append(message);
    s.append("\r\n");
    s
}

/// A point in time is shown so that each of its parts stands at its own place
/// and can be read there again.
pub proof fn every_part_of_a_time_is_shown(t: LocalTime)
    requires
        t.year < 10000,
        t.month < 100,
        t.day < 100,
        t.hour < 100,
        t.minute < 100,
        t.second < 100,
        t.milliseconds < 1000,
    ensures
        ({
            let s = time_text(t);
            &&& s.len() == 23
            &&& number::parse_unsigned(s.subrange(0, 4), 65535) == Some(t.year as int)
            &&& s[4] == '-'
            &&& number::parse_unsigned(s.subrange(5, 7), 65535) == Some(t.month as int)
            &&& s[7] == '-'
            &&& number::parse_unsigned(s.subrange(8, 10), 65535) == Some(t.day as int)
            &&& s[10] == ' '
            &&& number::parse_unsigned(s.subrange(11, 13), 65535) == Some(t.hour as int)
            &&& s[13] == ':'
            &&& number::parse_unsigned(s.subrange(14, 16), 65535) == Some(t.minute as int)
            &&& s[16] == ':'
            &&& number::parse_unsigned(s.subrange(17, 19), 65535) == Some(t.second as int)
            &&& s[19] == '.'
            &&& number::parse_unsigned(s.subrange(20, 23), 65535) == Some(t.milliseconds as int)
        }),
{
    reveal_strlit("-");
    reveal_strlit(" ");
    reveal_strlit(":");
    reveal_strlit(".");
    number::a_padded_number_is_read_again(t.year as nat, 4, 65535);
    number::a_padded_number_is_read_again(t.month as nat, 2, 65535);
    number::a_padded_number_is_read_again(t.day as nat, 2, 65535);
    number::a_padded_number_is_read_again(t.hour as nat, 2, 65535);
    number::a_padded_number_is_read_again(t.minute as nat, 2, 65535);
    number::a_padded_number_is_read_again(t.second as nat, 2, 65535);
    number::a_padded_number_is_read_again(t.milliseconds as nat, 3, 65535);
    let s = time_text(t);
    assert(s.subrange(0, 4) =~= padded(t.year, 4));
    assert(s.subrange(5, 7) =~= padded(t.month, 2));
    assert(s.subrange(8, 10) =~= padded(t.day, 2));
    assert(s.subrange(11, 13) =~= padded(t.hour, 2));
    assert(s.subrange(14, 16) =~= padded(t.minute, 2));
    assert(s.subrange(17, 19) =~= padded(t.second, 2));
    assert(s.subrange(20, 23) =~= padded(t.milliseconds, 3));
}

/// A path that begins with a drive and a root, or with the name of a server,
/// leads to one place; one that begins with anything else does not.
pub proof fn an_absolute_path_begins_with_its_root(letter: char, rest: Seq<char>)
    ensures
        ('a' <= letter && letter <= 'z') || ('A' <= letter && letter <= 'Z') ==> is_absolute(
            seq![letter, ':', '\\'] + rest,
        ) && is_absolute(seq![letter, ':', '/'] + rest),
        is_absolute(seq!['\\', '\\'] + rest),
        rest.len() > 0 && rest[0] != '\\' && rest[0] != '/' ==> !is_absolute(
            seq![letter, ':'] + rest,
        ) || letter == '\\',
        rest.len() > 1 && rest[1] != ':' && rest[0] != '\\' ==> !is_absolute(rest),
        !is_absolute(Seq::empty()),
{
    let a = seq![letter, ':', '\\'] + rest;
    let b = seq![letter, ':', '/'] + rest;
    assert(a.take(2) =~= seq![letter, ':']);
    assert(b.take(2) =~= seq![letter, ':']);
    let d = seq![letter, ':'] + rest;
    assert(d[1] == ':');
    if rest.len() > 0 {
        assert(d[2] == rest[0]);
    }
    if rest.len() > 1 {
        assert(rest.take(2)[1] == rest[1]);
    }
}

} // verus!
