//! The name under which the focused window's time is kept.

use vstd::prelude::*;

verus! {

/// The program that hosts packaged applications: its windows are told
/// apart by their titles.
pub open spec fn host_name() -> Seq<char> {
    "ApplicationFrameHost.exe"@
}

/// The name to keep a window's time under: the file name of its program,
/// or, for a window of the host of packaged applications, the window's
/// title; none when what is needed of the two is not known.
pub open spec fn display_name(exe_name: Option<Seq<char>>, title: Option<Seq<char>>) -> Option<
    Seq<char>,
> {
    match exe_name {
        None => None,
        Some(name) => if name == host_name() {
            title
        } else {
            Some(name)
        },
    }
}

/// The characters of a name, where there is one.
pub open spec fn name_view(name: Option<String>) -> Option<Seq<char>> {
    match name {
        Some(text) => Some(text@),
        None => None,
    }
}

/// Whether a program's windows are named by their titles.
pub fn named_by_title(exe_name: &String) -> (by_title: bool)
    ensures
        by_title == (exe_name@ == host_name()),
{
    let host = String::from_str("ApplicationFrameHost.exe");
    *exe_name == host
}

/// The name to keep a window's time under, from the file name of its
/// program and its title, where each is known.
pub fn get_display_name(exe_name: Option<String>, title: Option<String>) -> (name: Option<String>)
    ensures
        name_view(name) == display_name(name_view(exe_name), name_view(title)),
{
    match exe_name {
        None => None,
        Some(exe) => if named_by_title(&exe) {
            title
        } else {
            Some(exe)
        },
    }
}

} // verus!
