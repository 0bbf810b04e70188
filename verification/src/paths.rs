//! Where the config file lives, as a pure function of an environment
//! snapshot: an explicit override directory wins, then a config-home
//! directory with a fixed subdirectory, then the user's home with a dotted
//! path. With none of the three set there is no directory at all.

use vstd::prelude::*;
use crate::record::copy_text;

verus! {

/// `/tmux_startup`, appended to a config-home directory.
pub open spec fn xdg_subdir() -> Seq<char> {
    seq!['/', 't', 'm', 'u', 'x', '_', 's', 't', 'a', 'r', 't', 'u', 'p']
}

/// `/.config/tmux_startup`, appended to a home directory.
pub open spec fn home_subdir() -> Seq<char> {
    seq![
        '/',
        '.',
        'c',
        'o',
        'n',
        'f',
        'i',
        'g',
        '/',
        't',
        'm',
        'u',
        'x',
        '_',
        's',
        't',
        'a',
        'r',
        't',
        'u',
        'p',
    ]
}

/// `/tmux_startup.json`, appended to the resolved directory.
pub open spec fn file_suffix() -> Seq<char> {
    seq![
        '/',
        't',
        'm',
        'u',
        'x',
        '_',
        's',
        't',
        'a',
        'r',
        't',
        'u',
        'p',
        '.',
        'j',
        's',
        'o',
        'n',
    ]
}

/// The resolved config directory for an environment snapshot, first match
/// winning; `None` when no variable is set.
pub open spec fn spec_resolve_dir(
    override_dir: Option<Seq<char>>,
    config_home: Option<Seq<char>>,
    home: Option<Seq<char>>,
) -> Option<Seq<char>> {
    match override_dir {
        Some(d) => Some(d),
        None => match config_home {
            Some(x) => Some(x + xdg_subdir()),
            None => match home {
                Some(h) => Some(h + home_subdir()),
                None => None,
            },
        },
    }
}

fn push_xdg_subdir(out: &mut Vec<char>)
    ensures
        final(out)@ == old(out)@ + xdg_subdir(),
{
    out.push('/');
    out.push('t');
    out.push('m');
    out.push('u');
    out.push('x');
    out.push('_');
    out.push('s');
    out.push('t');
    out.push('a');
    out.push('r');
    out.push('t');
    out.push('u');
    out.push('p');
    proof {
        assert(out@ =~= old(out)@ + xdg_subdir());
    }
}

/// Resolve the config directory from the three environment values, in
/// priority order. Succeeds exactly when at least one of them is set.
pub fn resolve_config_dir(
    override_dir: &Option<Vec<char>>,
    config_home: &Option<Vec<char>>,
    home: &Option<Vec<char>>,
) -> (r: Option<Vec<char>>)
    ensures
        r.deep_view() == spec_resolve_dir(
            override_dir.deep_view(),
            config_home.deep_view(),
            home.deep_view(),
        ),
{
    match override_dir {
        Some(d) => Some(copy_text(d)),
        None => match config_home {
            Some(x) => {
                let mut out = copy_text(x);
                push_xdg_subdir(&mut out);
                Some(out)
            },
            None => match home {
                Some(h) => {
                    let mut out = copy_text(h);
                    out.push('/');
                    out.push('.');
                    out.push('c');
                    out.push('o');
                    out.push('n');
                    out.push('f');
                    out.push('i');
                    out.push('g');
                    push_xdg_subdir(&mut out);
                    proof {
                        assert(out@ =~= h@ + home_subdir());
                    }
                    Some(out)
                },
                None => None,
            },
        },
    }
}

/// The config file path under a resolved directory.
pub fn config_file_path(dir: &Vec<char>) -> (r: Vec<char>)
    ensures
        r@ == dir@ + file_suffix(),
{
    let mut out = copy_text(dir);
    out.push('/');
    out.push('t');
    out.push('m');
    out.push('u');
    out.push('x');
    out.push('_');
    out.push('s');
    out.push('t');
    out.push('a');
    out.push('r');
    out.push('t');
    out.push('u');
    out.push('p');
    out.push('.');
    out.push('j');
    out.push('s');
    out.push('o');
    out.push('n');
    proof {
        assert(out@ =~= dir@ + file_suffix());
    }
    out
}

} // verus!
