//! The permission-string core of the directory lister: rendering a Unix
//! file mode as the familiar nine-character `rwx` string.

use vstd::prelude::*;

use crate::chars::{chars_string, chars_vec};

verus! {

/// Whether a directory entry's name is listed: hidden names, those starting
/// with a dot, are kept only when every file was asked for.
pub fn keep_entry_name(name: &str, show_hidden: bool) -> (r: bool)
    ensures
        r == (show_hidden || name@.len() == 0 || name@[0] != '.'),
{
    if show_hidden {
        return true;
    }
    let chars = chars_vec(name);
    if chars.len() == 0 {
        return true;
    }
    chars[0] != '.'
}

/// The nine permission characters of a file mode: read, write and execute
/// for owner, group and others, with `-` for each bit that is clear.
pub open spec fn mode_chars(mode: u32) -> Seq<char> {
    seq![
        if mode & 0o400 != 0 { 'r' } else { '-' },
        if mode & 0o200 != 0 { 'w' } else { '-' },
        if mode & 0o100 != 0 { 'x' } else { '-' },
        if mode & 0o040 != 0 { 'r' } else { '-' },
        if mode & 0o020 != 0 { 'w' } else { '-' },
        if mode & 0o010 != 0 { 'x' } else { '-' },
        if mode & 0o004 != 0 { 'r' } else { '-' },
        if mode & 0o002 != 0 { 'w' } else { '-' },
        if mode & 0o001 != 0 { 'x' } else { '-' },
    ]
}

/// Render a file mode such as `0o755` as a string such as `rwxr-xr-x`.
pub fn format_mode(mode: u32) -> (s: String)
    ensures
        s@ == mode_chars(mode),
{
    let mut v: Vec<char> = Vec::new();
    v.push(if mode & 0o400 != 0 { 'r' } else { '-' });
    v.push(if mode & 0o200 != 0 { 'w' } else { '-' });
    v.push(if mode & 0o100 != 0 { 'x' } else { '-' });
    v.push(if mode & 0o040 != 0 { 'r' } else { '-' });
    v.push(if mode & 0o020 != 0 { 'w' } else { '-' });
    v.push(if mode & 0o010 != 0 { 'x' } else { '-' });
    v.push(if mode & 0o004 != 0 { 'r' } else { '-' });
    v.push(if mode & 0o002 != 0 { 'w' } else { '-' });
    v.push(if mode & 0o001 != 0 { 'x' } else { '-' });
    assert(v@ =~= mode_chars(mode));
    chars_string(&v)
}

} // verus!
