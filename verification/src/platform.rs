//! Small matters of the platform that capture, window and files share.

use crate::paths::Platform;
use crate::text::{holds, is_prefix, push_signed_decimal, replace, replaced, signed_decimal};
use crate::pipeline::mentions;
use crate::text::starts_with;
use vstd::prelude::*;

verus! {

pub open spec fn spec_windows_source(monitor: int) -> Seq<char> {
    "d3d11screencapturesrc capture-api=dxgi monitor-index="@ + signed_decimal(monitor)
        + " show-cursor=true ! video/x-raw,format=BGRA"@
}

/// The screen of Windows as a source. Its caps name system memory, where the
/// software encoder works everywhere.
pub fn windows_source(monitor: i32) -> (desc: String)
    ensures
        desc@ == spec_windows_source(monitor as int),
{
    let mut desc = "d3d11screencapturesrc capture-api=dxgi monitor-index=".to_owned();
    push_signed_decimal(&mut desc, monitor as i64);
    desc.append(" show-cursor=true ! video/x-raw,format=BGRA");
    desc
}

/// Whether a path can be handed over as the location of a file. It is a
/// property, not a part of the description: drive letters, backslashes, spaces
/// and quotes need no care then.
pub fn check_location(path: &str) -> (result: Result<(), String>)
    ensures
        result is Err <==> path@.contains('\0'),
        result matches Err(e) ==> e@ == "путь содержит NUL"@,
{
    if holds(path, '\0') {
        Err("путь содержит NUL".to_owned())
    } else {
        Ok(())
    }
}

/// Whether the shell of Windows opened a file, by the code that it returns.
pub fn shell_opened(code: i64) -> (result: Result<(), String>)
    ensures
        result is Ok <==> code > 32,
        result matches Err(e) ==> e@ == "не удалось открыть файл (ShellExecuteW: "@
            + signed_decimal(code as int) + ")"@,
{
    if code > 32 {
        return Ok(());
    }
    let mut error = "не удалось открыть файл (ShellExecuteW: ".to_owned();
    push_signed_decimal(&mut error, code);
    error.append(")");
    Err(error)
}

pub open spec fn spec_windows_file_uri(path: Seq<char>) -> Seq<char> {
    let slashed = replaced(path, '\\', '/');
    if is_prefix("//"@, slashed) {
        "file:"@ + slashed
    } else {
        "file:///"@ + slashed
    }
}

pub open spec fn spec_file_uri(platform: Platform, path: Seq<char>) -> Seq<char> {
    if platform == Platform::Windows {
        spec_windows_file_uri(path)
    } else {
        "file://"@ + path
    }
}

/// The address of a file as the loader of images takes it: with a slash before
/// the letter of a drive.
pub fn file_uri(platform: Platform, path: &str) -> (uri: String)
    ensures
        uri@ == spec_file_uri(platform, path@),
{
    match platform {
        Platform::Windows => windows_file_uri(path),
        Platform::Linux => {
            let mut uri = "file://".to_owned();
            uri.append(path);
            uri
        },
    }
}

/// A path of Windows as an address; that of a share keeps its two slashes.
pub fn windows_file_uri(path: &str) -> (uri: String)
    ensures
        uri@ == spec_windows_file_uri(path@),
{
    let slashed = replace(path, '\\', '/');
    let mut uri = if starts_with(slashed.as_str(), "//") {
        "file:".to_owned()
    } else {
        "file:///".to_owned()
    };
    uri.append(slashed.as_str());
    uri
}

// ----------------------------------------------------------------- the laws

/// The screen is captured from the monitor of the settings: the number that
/// stands there is its index, and it ends there. The pointer is in the picture.
pub proof fn law_source_names_the_monitor(monitor: int)
    ensures
        mentions(
            spec_windows_source(monitor),
            " monitor-index="@ + signed_decimal(monitor) + " "@,
        ),
        mentions(spec_windows_source(monitor), " show-cursor=true "@),
        is_prefix("d3d11screencapturesrc "@, spec_windows_source(monitor)),
{
    reveal_strlit(" ");
    reveal_strlit(" monitor-index=");
    reveal_strlit(" show-cursor=true ");
    reveal_strlit("! video/x-raw,format=BGRA");
    reveal_strlit("show-cursor=true ! video/x-raw,format=BGRA");
    reveal_strlit(" show-cursor=true ! video/x-raw,format=BGRA");
    reveal_strlit("d3d11screencapturesrc ");
    reveal_strlit("d3d11screencapturesrc capture-api=dxgi");
    reveal_strlit("d3d11screencapturesrc capture-api=dxgi monitor-index=");
    let desc = spec_windows_source(monitor);
    let n = signed_decimal(monitor);
    let head = "d3d11screencapturesrc "@;
    let front = "d3d11screencapturesrc capture-api=dxgi"@;
    assert(desc.take(head.len() as int) =~= head);
    assert(desc =~= front + (" monitor-index="@ + n + " "@)
        + "show-cursor=true ! video/x-raw,format=BGRA"@);
    assert(desc =~= (front + " monitor-index="@ + n) + " show-cursor=true "@
        + "! video/x-raw,format=BGRA"@);
}

/// The address of a file holds its path, behind the mark of files. On Linux
/// nothing of it changes; on Windows each backslash becomes a slash, and what
/// stands in front makes three slashes of a drive and two of a share.
pub proof fn law_address_holds_the_path(path: Seq<char>)
    ensures
        spec_file_uri(Platform::Linux, path) == "file://"@ + path,
        ({
            let uri = spec_file_uri(Platform::Windows, path);
            let n = uri.len() - path.len();
            let share = path.len() >= 2 && (path[0] == '\\' || path[0] == '/') && (path[1] == '\\'
                || path[1] == '/');
            &&& n == (if share {
                5int
            } else {
                8int
            })
            &&& uri.take(n) == (if share {
                "file:"@
            } else {
                "file:///"@
            })
            &&& !uri.contains('\\')
            &&& forall|i: int|
                0 <= i < path.len() ==> #[trigger] uri[n + i] == (if path[i] == '\\' {
                    '/'
                } else {
                    path[i]
                })
        }),
{
    reveal_strlit("//");
    reveal_strlit("file:");
    reveal_strlit("file:///");
    let uri = spec_file_uri(Platform::Windows, path);
    let slashed = replaced(path, '\\', '/');
    let share = path.len() >= 2 && (path[0] == '\\' || path[0] == '/') && (path[1] == '\\'
        || path[1] == '/');
    assert(is_prefix("//"@, slashed) <==> share) by {
        if share {
            assert(slashed.take(2) =~= "//"@);
        }
        if is_prefix("//"@, slashed) {
            assert(slashed.take(2)[0] == '/' && slashed.take(2)[1] == '/');
        }
    }
    let head = if share {
        "file:"@
    } else {
        "file:///"@
    };
    assert(uri.take(head.len() as int) =~= head);
    assert forall|i: int| 0 <= i < uri.len() implies uri[i] != '\\' by {
        if i >= head.len() {
            assert(uri[i] == slashed[i - head.len()]);
        } else {
            assert(uri[i] == head[i]);
        }
    }
}

} // verus!
