//! Where a system keeps its fonts.

use crate::paths::{join, join_of};
use crate::text::texts_of;
use vstd::prelude::*;

verus! {

/// The kind of system a run is on.
#[derive(Clone, Copy, Debug, PartialEq, Eq, Hash, Structural)]
pub enum Platform {
    Windows,
    MacOs,
    Linux,
    Other,
}

/// The directories in which a system of the given kind keeps fonts, whether
/// they exist or not. `home` is the user's home directory, empty if
/// unknown; `windir` is the system directory of a Windows machine.
pub open spec fn font_directories_of(
    platform: Platform,
    home: Seq<char>,
    windir: Option<Seq<char>>,
) -> Seq<Seq<char>> {
    match platform {
        Platform::Windows => match windir {
            Some(dir) => seq![join_of(dir, "Fonts"@)],
            None => Seq::empty(),
        },
        Platform::MacOs => seq![
            "/System/Library/Fonts"@,
            "/Library/Fonts"@,
            join_of(home, "Library/Fonts"@),
        ],
        Platform::Linux => seq![
            "/usr/share/fonts"@,
            "/usr/local/share/fonts"@,
            join_of(home, ".fonts"@),
        ],
        Platform::Other => Seq::empty(),
    }
}

/// Lists the directories in which the system keeps fonts. Which of them
/// exist is for the caller to find out.
pub fn system_font_directory_candidates(
    platform: Platform,
    home: &str,
    windir: Option<&str>,
) -> (r: Vec<String>)
    ensures
        texts_of(r@) == font_directories_of(
            platform,
            home@,
            match windir {
                Some(dir) => Some(dir@),
                None => None,
            },
        ),
{
    let mut dirs: Vec<String> = Vec::new();
    match platform {
        Platform::Windows => {
            match windir {
                Some(dir) => {
                    dirs.push(join(dir, "Fonts"));
                },
                None => {},
            }
        },
        Platform::MacOs => {
            dirs.push(String::from_str("/System/Library/Fonts"));
            dirs.push(String::from_str("/Library/Fonts"));
            dirs.push(join(home, "Library/Fonts"));
        },
        Platform::Linux => {
            dirs.push(String::from_str("/usr/share/fonts"));
            dirs.push(String::from_str("/usr/local/share/fonts"));
            dirs.push(join(home, ".fonts"));
        },
        Platform::Other => {},
    }
    assert(texts_of(dirs@) =~= font_directories_of(
        platform,
        home@,
        match windir {
            Some(dir) => Some(dir@),
            None => None,
        },
    ));
    dirs
}

} // verus!
