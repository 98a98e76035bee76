//! Target configuration for the listing probe.
//!
//! One `config.toml` describes the NAS for this probe and for the sibling `benchmarks/smb`
//! harness. By default the sibling's file is read; `SMB_LISTING_CONFIG` or `--config <path>`
//! names another.

use vstd::prelude::*;

use crate::text;

verus! {

/// The targets a configuration file describes, in file order.
#[derive(Debug, PartialEq, Eq)]
pub struct BenchConfig {
    pub targets: Vec<Target>,
}

/// A server and share to measure.
#[derive(Debug, Clone, PartialEq, Eq)]
pub struct Target {
    pub name: String,
    pub host: String,
    pub share: String,
    pub username: Option<String>,
    pub password: Option<String>,
    pub guest: bool,
    /// Read by the sibling harness only.
    pub native_mount: Option<String>,
    /// Read by the sibling harness only.
    pub max_chunk_kb: Option<u32>,
}

fn copy_option(s: &Option<String>) -> (out: Option<String>)
    ensures
        out == *s,
{
    match s {
        Some(inner) => Some(inner.clone()),
        None => None,
    }
}

impl Target {
    /// The same target again.
    pub fn duplicate(&self) -> (out: Target)
        ensures
            out == *self,
    {
        Target {
            name: self.name.clone(),
            host: self.host.clone(),
            share: self.share.clone(),
            username: copy_option(&self.username),
            password: copy_option(&self.password),
            guest: self.guest,
            native_mount: copy_option(&self.native_mount),
            max_chunk_kb: self.max_chunk_kb,
        }
    }
}

/// The first target of this name.
pub open spec fn named(targets: Seq<Target>, name: Seq<char>) -> Option<Target>
    decreases targets.len(),
{
    if targets.len() == 0 {
        None
    } else if targets[0].name@ == name {
        Some(targets[0])
    } else {
        named(targets.drop_first(), name)
    }
}

/// The target that a choice means: the one of that name, or the first when no name is given.
pub open spec fn picked(targets: Seq<Target>, name: Option<Seq<char>>) -> Option<Target> {
    match name {
        Some(n) => named(targets, n),
        None => if targets.len() > 0 {
            Some(targets[0])
        } else {
            None
        },
    }
}

/// What to say when there is no such target.
pub open spec fn pick_error(name: Option<Seq<char>>) -> Seq<char> {
    match name {
        Some(n) => "No target named '"@ + n + "' in config"@,
        None => "Config has no targets"@,
    }
}

/// An optional string as contracts see it.
pub open spec fn option_view(s: Option<&str>) -> Option<Seq<char>> {
    match s {
        Some(s) => Some(s@),
        None => None,
    }
}

impl BenchConfig {
    /// Picks a target by name, or the first one when `name` is `None`.
    pub fn pick(&self, name: Option<&str>) -> (target: Result<Target, String>)
        ensures
            match target {
                Ok(t) => picked(self.targets@, option_view(name)) == Some(t),
                Err(message) => picked(self.targets@, option_view(name)) is None && message@
                    == pick_error(option_view(name)),
            },
    {
        match name {
            Some(n) => {
                let wanted = n.to_string();
                let mut i: usize = 0;
                assert(self.targets@.skip(0) =~= self.targets@);
                while i < self.targets.len()
                    invariant
                        i <= self.targets.len(),
                        name == Some(n),
                        wanted@ == n@,
                        named(self.targets@, n@) == named(self.targets@.skip(i as int), n@),
                    decreases self.targets.len() - i,
                {
                    assert(self.targets@.skip(i as int).drop_first() =~= self.targets@.skip(i + 1));
                    if self.targets[i].name == wanted {
                        return Ok(self.targets[i].duplicate());
                    }
                    i = i + 1;
                }
                let mut message = "No target named '".to_string();
                message.append(n);
                message.append("' in config");
                Err(message)
            },
            None => if self.targets.len() > 0 {
                Ok(self.targets[0].duplicate())
            } else {
                Err("Config has no targets".to_string())
            },
        }
    }
}

/// `dir` and the way from it to the sibling harness's file. A slash goes between them unless
/// `dir` is empty or ends in one.
pub open spec fn sibling_path(dir: Seq<char>) -> Seq<char> {
    if dir.len() == 0 || dir.last() == '/' {
        dir + "../smb/config.toml"@
    } else {
        dir + "/"@ + "../smb/config.toml"@
    }
}

/// Where the sibling harness keeps its configuration, seen from `manifest_dir`.
pub fn sibling_config_path(manifest_dir: &str) -> (path: String)
    ensures
        path@ == sibling_path(manifest_dir@),
{
    let chars = text::chars_of(manifest_dir);
    let mut path = manifest_dir.to_string();
    if chars.len() > 0 && chars[chars.len() - 1] != '/' {
        path.append("/");
    }
    path.append("../smb/config.toml");
    path
}

/// The default configuration path: the sibling `benchmarks/smb/config.toml`, in its `canonical`
/// form if the file system could give one.
pub fn default_config_path(manifest_dir: &str, canonical: Option<String>) -> (path: String)
    ensures
        path@ == (match canonical {
            Some(c) => c@,
            None => sibling_path(manifest_dir@),
        }),
{
    match canonical {
        Some(path) => path,
        None => sibling_config_path(manifest_dir),
    }
}

/// The configuration path without a flag: what `SMB_LISTING_CONFIG` says, or else the default.
pub fn configured_path(from_environment: Option<String>, default: String) -> (path: String)
    ensures
        path == (match from_environment {
            Some(p) => p,
            None => default,
        }),
{
    match from_environment {
        Some(path) => path,
        None => default,
    }
}

/// The target of a name is the first of that name, and there is one exactly when some target has
/// the name.
pub proof fn law_named_is_the_first(targets: Seq<Target>, name: Seq<char>)
    ensures
        match named(targets, name) {
            Some(t) => exists|i: int|
                0 <= i < targets.len() && #[trigger] targets[i] == t && t.name@ == name && (
                forall|j: int| 0 <= j < i ==> (#[trigger] targets[j]).name@ != name),
            None => forall|i: int| 0 <= i < targets.len() ==> (#[trigger] targets[i]).name@ != name,
        },
    decreases targets.len(),
{
    if targets.len() > 0 && targets[0].name@ != name {
        let rest = targets.drop_first();
        law_named_is_the_first(rest, name);
        match named(rest, name) {
            Some(t) => {
                let i = choose|i: int|
                    0 <= i < rest.len() && #[trigger] rest[i] == t && t.name@ == name && (forall|
                        j: int,
                    |
                        0 <= j < i ==> (#[trigger] rest[j]).name@ != name);
                assert(targets[i + 1] == t);
                assert forall|j: int| 0 <= j < i + 1 implies (#[trigger] targets[j]).name@
                    != name by {
                    if j > 0 {
                        assert(rest[j - 1] == targets[j]);
                    }
                }
            },
            None => {
                assert forall|i: int| 0 <= i < targets.len() implies (
                #[trigger] targets[i]).name@ != name by {
                    if i > 0 {
                        assert(rest[i - 1] == targets[i]);
                    }
                }
            },
        }
    }
}

/// Without a name the first target is picked, with one the target of that name.
pub proof fn law_what_is_picked(targets: Seq<Target>, name: Seq<char>, given: &str)
    ensures
        option_view(Some(given)) == Some(given@),
        picked(targets, None) is None <==> targets.len() == 0,
        targets.len() > 0 ==> picked(targets, None) == Some(targets.first()),
        picked(targets, Some(name)) == named(targets, name),
        option_view(None) is None,
{
}

/// The message about a missing target quotes the name as it was given.
pub proof fn law_the_error_quotes_the_name(name: Seq<char>)
    ensures
        ({
            let message = pick_error(Some(name));
            &&& message.len() == 17 + name.len() + 11
            &&& message.take(17) == "No target named '"@
            &&& message.subrange(17, 17 + name.len() as int) == name
            &&& message.skip(17 + name.len() as int) == "' in config"@
        }),
        pick_error(None) == "Config has no targets"@,
{
    reveal_strlit("No target named '");
    reveal_strlit("' in config");
    let message = pick_error(Some(name));
    assert(message.take(17) =~= "No target named '"@);
    assert(message.subrange(17, 17 + name.len() as int) =~= name);
    assert(message.skip(17 + name.len() as int) =~= "' in config"@);
}

/// The sibling's path starts with the directory as it was given and ends with the way from there,
/// with one slash between unless the directory ends in one or is empty.
pub proof fn law_the_sibling_is_reached_from_the_directory(dir: Seq<char>)
    ensures
        ({
            let path = sibling_path(dir);
            let gap: int = if dir.len() == 0 || dir.last() == '/' {
                0
            } else {
                1
            };
            &&& path.len() == dir.len() + gap + 18
            &&& path.take(dir.len() as int) == dir
            &&& gap == 1 ==> path[dir.len() as int] == '/'
            &&& path.skip(dir.len() + gap) == "../smb/config.toml"@
        }),
{
    reveal_strlit("../smb/config.toml");
    reveal_strlit("/");
    let path = sibling_path(dir);
    assert(path.take(dir.len() as int) =~= dir);
    if dir.len() == 0 || dir.last() == '/' {
        assert(path.skip(dir.len() as int) =~= "../smb/config.toml"@);
    } else {
        assert(path.skip(dir.len() + 1int) =~= "../smb/config.toml"@);
    }
}

} // verus!
