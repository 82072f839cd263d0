//! The lock that keeps a second recorder from running, and the process number
//! by which commands find the first.

use crate::config::{config_dir, config_place, Env, Places};
use crate::paths::{join, joined, Platform};
use crate::text::{decimal, integer_value, law_decimal_reads_back, parse_i32, push_decimal};
use crate::text::{law_signed_number_reads_back, signed_decimal, trim, trimmed};
use vstd::prelude::*;

verus! {

pub open spec fn pidfile_place(places: Places) -> Seq<char> {
    let dir = if places.platform == Platform::Windows {
        config_place(places)
    } else {
        match places.runtime_dir {
            Some(dir) => dir,
            None => places.temp_dir,
        }
    };
    joined(places.platform, dir, "replay-rs.pid"@)
}

/// The file that is locked.
pub fn pidfile(env: &Env) -> (path: String)
    ensures
        path@ == pidfile_place(env@),
{
    let dir = match env.platform {
        Platform::Windows => config_dir(env),
        Platform::Linux => match &env.runtime_dir {
            Some(dir) => dir.clone(),
            None => env.temp_dir.clone(),
        },
    };
    join(env.platform, dir.as_str(), "replay-rs.pid")
}

/// What to write into the file after the attempt to lock it: nothing where a
/// recorder runs already. The lock decides, not the number in the file: the
/// system releases the lock of a process that died, and reuses its number.
pub fn acquire(locked: bool, pid: u32) -> (text: Option<String>)
    ensures
        text is Some <==> locked,
        text matches Some(t) ==> t@ == decimal(pid as nat),
{
    if !locked {
        return None;
    }
    let mut text = String::new();
    push_decimal(&mut text, pid as u64);
    assert(text@ =~= decimal(pid as nat));
    Some(text)
}

/// The process number in what the file holds; text without one is an error.
pub open spec fn pid_in(text: Seq<char>) -> Option<int> {
    match integer_value(trimmed(text)) {
        Some(n) if i32::MIN <= n <= i32::MAX => Some(n),
        _ => None,
    }
}

/// The process number of the recorder that runs, by what the file holds, if it
/// could be read.
pub fn running_pid(stored: Option<&str>, env: &Env) -> (pid: Result<i32, String>)
    ensures
        match stored {
            None => pid is Err && pid->Err_0@ == "рекордер не запущен (нет "@ + pidfile_place(
                env@,
            ) + ")"@,
            Some(text) => match pid_in(text@) {
                Some(n) => pid == Ok::<i32, String>(n as i32),
                None => pid is Err && pid->Err_0@ == "повреждённый pid-файл"@,
            },
        },
{
    match stored {
        None => {
            let mut error = "рекордер не запущен (нет ".to_owned();
            error.append(pidfile(env).as_str());
            error.append(")");
            Err(error)
        },
        Some(text) => match parse_i32(trim(text).as_str()) {
            Some(pid) => Ok(pid),
            None => Err("повреждённый pid-файл".to_owned()),
        },
    }
}

/// The number that a recorder wrote is the number that commands read.
pub proof fn law_written_pid_is_read(pid: u32)
    requires
        pid <= i32::MAX,
    ensures
        pid_in(decimal(pid as nat)) == Some(pid as int),
{
    law_decimal_reads_back(pid as nat);
}

/// The lock lies in the directory of the session, and where there is none among
/// the temporary files; on Windows among the settings.
pub proof fn law_lock_lies_in_the_session(places: Places, dir: Seq<char>)
    ensures
        places.platform == Platform::Linux && places.runtime_dir == Some(dir) ==> pidfile_place(
            places,
        ) == joined(Platform::Linux, dir, "replay-rs.pid"@),
        places.platform == Platform::Linux && places.runtime_dir is None ==> pidfile_place(places)
            == joined(Platform::Linux, places.temp_dir, "replay-rs.pid"@),
        places.platform == Platform::Windows ==> pidfile_place(places) == joined(
            Platform::Windows,
            config_place(places),
            "replay-rs.pid"@,
        ),
{
}

/// White space around the number does not matter, and anything else than a
/// number that a process can have is refused.
pub proof fn law_pid_is_a_number(text: Seq<char>, n: int)
    requires
        i32::MIN <= n <= i32::MAX,
    ensures
        pid_in(text) matches Some(pid) ==> i32::MIN <= pid <= i32::MAX && integer_value(
            trimmed(text),
        ) == Some(pid),
        pid_in(text) is None ==> integer_value(trimmed(text)) is None || !(i32::MIN
            <= integer_value(trimmed(text))->0 <= i32::MAX),
        pid_in(signed_decimal(n)) == Some(n),
{
    law_signed_number_reads_back(n);
    let written = signed_decimal(n);
    reveal_strlit("-");
    if n < 0 {
        law_decimal_reads_back((-n) as nat);
        let digits = decimal((-n) as nat);
        assert(written.last() == digits.last());
        assert('0' <= digits[digits.len() - 1] <= '9');
        assert(written[0] == '-');
        assert(trimmed(written) == written);
    } else {
        law_decimal_reads_back(n as nat);
    }
}

} // verus!
