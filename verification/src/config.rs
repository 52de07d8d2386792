//! What the user can set: the domains to block.

use vstd::prelude::*;
use crate::command::{Command, CommandView};
use crate::command::commands;
use crate::paths::Location;
use crate::text::texts;

verus! {

/// The settings.
#[derive(Debug)]
pub struct Config {
    pub blocked_domains: Vec<String>,
}

/// The domains that are blocked where nothing else is set.
pub open spec fn default_domains() -> Seq<Seq<char>> {
    seq![
        "github.com"@,
        "twitter.com"@,
        "x.com"@,
        "youtube.com"@,
        "instagram.com"@,
        "linkedin.com"@,
        "bsky.app"@,
        "hachyderm.io"@,
        "zulip.com"@,
        "facebook.com"@,
    ]
}

/// The domains that are blocked where nothing else is set.
pub fn default_blocked_domains() -> (r: Vec<String>)
    ensures
        texts(r@) == default_domains(),
{
    let r: Vec<String> = vec![
        "github.com".to_string(),
        "twitter.com".to_string(),
        "x.com".to_string(),
        "youtube.com".to_string(),
        "instagram.com".to_string(),
        "linkedin.com".to_string(),
        "bsky.app".to_string(),
        "hachyderm.io".to_string(),
        "zulip.com".to_string(),
        "facebook.com".to_string(),
    ];
    proof {
        assert(texts(r@) =~= default_domains());
    }
    r
}

/// What the file with the settings holds.
pub enum ConfigFile {
    /// There is no file.
    Missing,
    /// The file says nothing that can be read as settings.
    Malformed,
    /// The settings that the file has.
    Parsed { blocked_domains: Option<Vec<String>> },
}

/// The domains that a file sets to be blocked.
pub open spec fn stored_domains(file: ConfigFile) -> Seq<Seq<char>> {
    match file {
        ConfigFile::Parsed { blocked_domains: Some(domains) } => texts(domains@),
        _ => default_domains(),
    }
}

/// Settings, and whether they are to be written to their file.
#[derive(Debug)]
pub struct LoadedConfig {
    pub config: Config,
    pub save: bool,
}

/// What to write to the file with the settings, and which commands to run then.
#[derive(Debug)]
pub struct SavePlan {
    pub write: Option<String>,
    pub then_run: Vec<Command>,
}

/// The command that makes a user the owner of a file.
pub open spec fn chown_view(user: Seq<char>, path: Seq<char>) -> CommandView {
    CommandView { program: "chown"@, args: seq![user, path] }
}

impl Default for Config {
    /// The settings where nothing is set.
    fn default() -> (r: Config)
        ensures
            texts(r.blocked_domains@) == default_domains(),
    {
        Config { blocked_domains: default_blocked_domains() }
    }
}

impl Config {
    /// Where the file with the settings stands, in the directory for configuration files. The
    /// directory that holds it is made first.
    pub fn config_path<P>(config_dir: Location<P>) -> (r: (Location<P>, &'static str))
        ensures
            r.0@ == config_dir@.join("study-time"@),
            r.1@ == "config.toml"@,
    {
        (config_dir.join("study-time"), "config.toml")
    }

    /// The settings that a file holds, with the default for what it leaves out or where nothing
    /// can be made of it. Where there is no file they are to be written.
    pub fn load(file: ConfigFile) -> (r: LoadedConfig)
        ensures
            texts(r.config.blocked_domains@) == stored_domains(file),
            r.save == (file is Missing),
            file matches ConfigFile::Parsed { blocked_domains: Some(domains) } ==> r.config
                == (Config { blocked_domains: domains }),
    {
        match file {
            ConfigFile::Missing => LoadedConfig { config: Config::default(), save: true },
            ConfigFile::Malformed => LoadedConfig { config: Config::default(), save: false },
            ConfigFile::Parsed { blocked_domains } => match blocked_domains {
                Some(blocked_domains) => LoadedConfig {
                    config: Config { blocked_domains },
                    save: false,
                },
                None => LoadedConfig { config: Config::default(), save: false },
            },
        }
    }

    /// What is to be done to save settings, given their text, if they have one, the path of their
    /// file, if it is text, and the user who called `sudo`, if it was called: that user is to own
    /// the file.
    pub fn save(
        text: Option<String>,
        path: Option<String>,
        sudo_user: Option<String>,
    ) -> (r: SavePlan)
        ensures
            r.write == text,
            commands(r.then_run@) == (match (text, sudo_user) {
                (Some(_), Some(user)) => seq![
                    chown_view(
                        user@,
                        match path {
                            Some(p) => p@,
                            None => Seq::empty(),
                        },
                    ),
                ],
                _ => Seq::empty(),
            }),
    {
        let mut then_run: Vec<Command> = Vec::new();
        proof {
            assert(commands(then_run@) =~= Seq::<CommandView>::empty());
        }
        if text.is_some() {
            match sudo_user {
                Some(user) => {
                    let file = match path {
                        Some(p) => p,
                        None => String::new(),
                    };
                    let command = Command::new("chown").arg(user.as_str()).arg(file.as_str());
                    proof {
                        assert(command@.args =~= chown_view(user@, file@).args);
                    }
                    then_run.push(command);
                    proof {
                        assert(commands(then_run@) =~= seq![chown_view(user@, file@)]);
                    }
                },
                None => {},
            }
        }
        SavePlan { write: text, then_run }
    }
}

/// Settings that are saved and read back load as they were, and are not saved again.
pub proof fn law_saved_config_loads_as_it_was(config: Config, blocked_domains: Vec<String>)
    requires
        texts(blocked_domains@) == texts(config.blocked_domains@),
    ensures
        ({
            let file = ConfigFile::Parsed { blocked_domains: Some(blocked_domains) };
            stored_domains(file) == texts(config.blocked_domains@) && !(file is Missing)
        }),
{
}

/// The domains that a file lists are blocked, all of them and in its order, also where it lists none;
/// only where it lists nothing do those apply that are blocked by default, and these are the same
/// whatever the reason.
pub proof fn law_listed_domains_are_blocked(domains: Vec<String>)
    ensures
        ({
            let listed = stored_domains(ConfigFile::Parsed { blocked_domains: Some(domains) });
            &&& listed.len() == domains@.len()
            &&& forall|i: int| 0 <= i < domains@.len() ==> #[trigger] listed[i] == domains@[i]@
        }),
        stored_domains(ConfigFile::Parsed { blocked_domains: None }) == stored_domains(
            ConfigFile::Missing,
        ),
        stored_domains(ConfigFile::Malformed) == stored_domains(ConfigFile::Missing),
        stored_domains(ConfigFile::Missing) == default_domains(),
        default_domains().len() == 10,
{
}

/// The command that hands a file over names the user and then the file, whatever they are.
pub proof fn law_file_is_handed_to_the_user(user: Seq<char>, path: Seq<char>)
    ensures
        chown_view(user, path).program == "chown"@,
        chown_view(user, path).args.len() == 2,
        chown_view(user, path).args[0] == user,
        chown_view(user, path).args[1] == path,
{
}

} // verus!
