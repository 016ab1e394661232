//! The process configuration: this instance's name, the names it listens
//! to, and the shared directory, read from `key=value` lines.
use vstd::prelude::*;

use crate::naming::names_of;
use crate::text::{
    chars_of, lines, lines_of, same_chars, split, split_chars, string_of, trim, trim_chars,
    views_of,
};

verus! {

/// Settings of one instance, fixed for the life of the process.
pub struct Config {
    pub local_name: String,
    pub remote_names: Vec<String>,
    pub dir_name: String,
}

/// A key of the configuration text.
#[derive(PartialEq, Eq, Structural, Clone, Copy, Debug)]
pub enum ConfigKey {
    LocalName,
    RemoteNames,
    DirName,
}

/// Why a configuration text was refused. Lines count from zero.
#[derive(PartialEq, Eq, Structural, Clone, Copy, Debug)]
pub enum ConfigError {
    /// A line without `=`, or with nothing but white space after it.
    NoValue { line: usize },
    /// A line with more than one `=`.
    TooManyParts { line: usize },
    /// A line whose key is none of the three keys.
    UnknownKey { line: usize },
    /// A key given twice.
    Duplicate(ConfigKey),
    /// A key never given.
    Missing(ConfigKey),
    /// The local name is among the remote names.
    RemoteIsLocal,
}

/// What the lines read so far have set.
pub struct Settings {
    pub local: Option<Seq<char>>,
    pub remotes: Option<Seq<Seq<char>>>,
    pub dir: Option<Seq<char>>,
}

/// The remote names of a `remote_names` value: its comma-separated pieces,
/// each trimmed.
pub open spec fn remote_list(value: Seq<char>) -> Seq<Seq<char>> {
    split(value, ',').map_values(|p: Seq<char>| trim(p))
}

/// The effect of line number `i` on the settings read before it.
pub open spec fn apply_line(st: Settings, line: Seq<char>, i: int) -> Result<Settings, ConfigError> {
    let parts = split(line, '=');
    if line.len() == 0 || line[0] == '#' {
        Ok(st)
    } else if parts.len() < 2 {
        Err(ConfigError::NoValue { line: i as usize })
    } else if parts.len() > 2 {
        Err(ConfigError::TooManyParts { line: i as usize })
    } else {
        let key = trim(parts[0]);
        let value = trim(parts[1]);
        if value.len() == 0 {
            Err(ConfigError::NoValue { line: i as usize })
        } else if key == "local_name"@ {
            if st.local is Some {
                Err(ConfigError::Duplicate(ConfigKey::LocalName))
            } else {
                Ok(Settings { local: Some(value), ..st })
            }
        } else if key == "remote_names"@ {
            if st.remotes is Some {
                Err(ConfigError::Duplicate(ConfigKey::RemoteNames))
            } else {
                Ok(Settings { remotes: Some(remote_list(value)), ..st })
            }
        } else if key == "dir_name"@ {
            if st.dir is Some {
                Err(ConfigError::Duplicate(ConfigKey::DirName))
            } else {
                Ok(Settings { dir: Some(value), ..st })
            }
        } else {
            Err(ConfigError::UnknownKey { line: i as usize })
        }
    }
}

/// The settings after the first `n` lines, or the first error among them.
pub open spec fn settings_after(ls: Seq<Seq<char>>, n: int) -> Result<Settings, ConfigError>
    decreases n,
{
    if n <= 0 {
        Ok(Settings { local: None, remotes: None, dir: None })
    } else {
        match settings_after(ls, n - 1) {
            Err(e) => Err(e),
            Ok(st) => apply_line(st, ls[n - 1], n - 1),
        }
    }
}

/// The configuration that complete settings give.
pub open spec fn finish(st: Settings) -> Result<(Seq<char>, Seq<Seq<char>>, Seq<char>), ConfigError> {
    match st.local {
        None => Err(ConfigError::Missing(ConfigKey::LocalName)),
        Some(l) => match st.remotes {
            None => Err(ConfigError::Missing(ConfigKey::RemoteNames)),
            Some(r) => if r.contains(l) {
                Err(ConfigError::RemoteIsLocal)
            } else {
                match st.dir {
                    None => Err(ConfigError::Missing(ConfigKey::DirName)),
                    Some(d) => Ok((l, r, d)),
                }
            },
        },
    }
}

/// The configuration a text gives: local name, remote names, directory.
pub open spec fn parsed(text: Seq<char>) -> Result<(Seq<char>, Seq<Seq<char>>, Seq<char>), ConfigError> {
    match settings_after(lines(text), lines(text).len() as int) {
        Err(e) => Err(e),
        Ok(st) => finish(st),
    }
}

/// The settings held while reading.
struct Draft {
    local: Option<String>,
    remotes: Option<Vec<String>>,
    dir: Option<String>,
}

impl Draft {
    spec fn view(&self) -> Settings {
        Settings {
            local: match self.local {
                Some(s) => Some(s@),
                None => None,
            },
            remotes: match self.remotes {
                Some(v) => Some(names_of(v@)),
                None => None,
            },
            dir: match self.dir {
                Some(s) => Some(s@),
                None => None,
            },
        }
    }
}

/// The trimmed comma-separated pieces of `value`.
fn remote_names_of(value: &Vec<char>) -> (r: Vec<String>)
    ensures
        names_of(r@) == remote_list(value@),
{
    let parts = split_chars(value, ',');
    let ghost want = remote_list(value@);
    let mut r: Vec<String> = Vec::new();
    let mut k: usize = 0;
    while k < parts.len()
        invariant
            k <= parts.len(),
            views_of(parts@) == split(value@, ','),
            want == remote_list(value@),
            want.len() == parts.len(),
            names_of(r@) == want.subrange(0, k as int),
        decreases parts.len() - k,
    {
        let t = trim_chars(&parts[k]);
        let ghost before = r@;
        r.push(string_of(&t));
        assert(views_of(parts@)[k as int] == parts@[k as int]@);
        assert(names_of(r@) =~= want.subrange(0, k + 1)) by {
            assert(names_of(r@) =~= names_of(before).push(t@));
        }
        k = k + 1;
    }
    assert(want.subrange(0, k as int) =~= want);
    r
}

/// Applies line number `i` to the settings read so far.
fn read_line(draft: &mut Draft, line: &Vec<char>, i: usize) -> (r: Result<(), ConfigError>)
    ensures
        match apply_line(old(draft).view(), line@, i as int) {
            Ok(st) => r is Ok && final(draft).view() == st,
            Err(e) => r == Err::<(), ConfigError>(e),
        },
{
    if line.len() == 0 || line[0] == '#' {
        return Ok(());
    }
    let parts = split_chars(line, '=');
    assert(views_of(parts@).len() == parts.len());
    if parts.len() < 2 {
        return Err(ConfigError::NoValue { line: i });
    }
    if parts.len() > 2 {
        return Err(ConfigError::TooManyParts { line: i });
    }
    assert(views_of(parts@)[0] == parts@[0]@);
    assert(views_of(parts@)[1] == parts@[1]@);
    let key = trim_chars(&parts[0]);
    let value = trim_chars(&parts[1]);
    if value.len() == 0 {
        return Err(ConfigError::NoValue { line: i });
    }
    if same_chars(&key, &chars_of("local_name")) {
        if draft.local.is_some() {
            return Err(ConfigError::Duplicate(ConfigKey::LocalName));
        }
        draft.local = Some(string_of(&value));
        Ok(())
    } else if same_chars(&key, &chars_of("remote_names")) {
        if draft.remotes.is_some() {
            return Err(ConfigError::Duplicate(ConfigKey::RemoteNames));
        }
        draft.remotes = Some(remote_names_of(&value));
        Ok(())
    } else if same_chars(&key, &chars_of("dir_name")) {
        if draft.dir.is_some() {
            return Err(ConfigError::Duplicate(ConfigKey::DirName));
        }
        draft.dir = Some(string_of(&value));
        Ok(())
    } else {
        Err(ConfigError::UnknownKey { line: i })
    }
}

impl Config {
    /// Reads a configuration from the text of a config file: one `key=value`
    /// per line, with the keys `local_name`, `remote_names` (comma-separated)
    /// and `dir_name`; empty lines and lines starting with `#` are skipped.
    pub fn load(content: &str) -> (r: Result<Config, ConfigError>)
        ensures
            match r {
                Ok(c) => parsed(content@) == Ok::<_, ConfigError>(
                    (c.local_name@, names_of(c.remote_names@), c.dir_name@),
                ),
                Err(e) => parsed(content@) == Err::<(Seq<char>, Seq<Seq<char>>, Seq<char>), _>(e),
            },
    {
        let text = chars_of(content);
        let ls = lines_of(&text);
        let ghost lv = lines(content@);
        let mut draft = Draft { local: None, remotes: None, dir: None };
        let mut i: usize = 0;
        while i < ls.len()
            invariant
                i <= ls.len(),
                views_of(ls@) == lv,
                lv == lines(content@),
                settings_after(lv, i as int) == Ok::<Settings, ConfigError>(draft.view()),
            decreases ls.len() - i,
        {
            assert(views_of(ls@)[i as int] == ls@[i as int]@);
            match read_line(&mut draft, &ls[i], i) {
                Err(e) => {
                    proof {
                        lemma_error_stays(lv, i as int + 1, lv.len() as int);
                    }
                    return Err(e);
                },
                Ok(()) => {},
            }
            i = i + 1;
        }
        let ghost st = draft.view();
        assert(lv.len() == ls.len());
        let local = match draft.local {
            Some(l) => l,
            None => {
                return Err(ConfigError::Missing(ConfigKey::LocalName));
            },
        };
        let remotes = match draft.remotes {
            Some(r) => r,
            None => {
                return Err(ConfigError::Missing(ConfigKey::RemoteNames));
            },
        };
        let mut k: usize = 0;
        while k < remotes.len()
            invariant
                k <= remotes.len(),
                forall|j: int| 0 <= j < k ==> names_of(remotes@)[j] != local@,
                parsed(content@) == finish(st),
                st.local == Some(local@),
                st.remotes == Some(names_of(remotes@)),
            decreases remotes.len() - k,
        {
            if remotes[k] == local {
                assert(names_of(remotes@)[k as int] == local@);
                assert(names_of(remotes@).contains(local@));
                return Err(ConfigError::RemoteIsLocal);
            }
            k = k + 1;
        }
        let dir = match draft.dir {
            Some(d) => d,
            None => {
                return Err(ConfigError::Missing(ConfigKey::DirName));
            },
        };
        Ok(Config { local_name: local, remote_names: remotes, dir_name: dir })
    }
}

/// Once a line fails, reading stops with that error.
proof fn lemma_error_stays(ls: Seq<Seq<char>>, n: int, m: int)
    requires
        0 < n <= m,
        settings_after(ls, n) is Err,
    ensures
        settings_after(ls, m) == settings_after(ls, n),
    decreases m - n,
{
    if n < m {
        lemma_error_stays(ls, n, m - 1);
    }
}

} // verus!
