//! Where the files of the timer stand.

use vstd::prelude::*;
use crate::command::{Command, CommandView};
use crate::text::{from_utf8, split_at_char};
use crate::text::{join, split, texts};
use crate::text_laws::lemma_split_join;

verus! {

/// The directory that a path starts from.
#[derive(Debug)]
pub enum Base<P> {
    /// A directory given by its text.
    Text(String),
    /// A directory that the system named.
    Native(P),
}

/// A path: a directory and the names to follow from there.
#[derive(Debug)]
pub struct Location<P> {
    pub base: Base<P>,
    pub names: Vec<String>,
}

/// What a [`Base`] says.
pub enum BaseView<P> {
    Text(Seq<char>),
    Native(P),
}

/// What a [`Location`] says.
pub struct LocationView<P> {
    pub base: BaseView<P>,
    pub names: Seq<Seq<char>>,
}

impl<P> View for Location<P> {
    type V = LocationView<P>;

    open spec fn view(&self) -> LocationView<P> {
        LocationView {
            base: match self.base {
                Base::Text(s) => BaseView::Text(s@),
                Base::Native(p) => BaseView::Native(p),
            },
            names: texts(self.names@),
        }
    }
}

impl<P> LocationView<P> {
    /// The path one name further.
    pub open spec fn join(self, name: Seq<char>) -> LocationView<P> {
        LocationView { names: self.names.push(name), ..self }
    }
}

impl<P> Location<P> {
    /// A directory itself.
    fn at(base: Base<P>) -> (r: Location<P>)
        ensures
            r.base == base,
            r@.names == Seq::<Seq<char>>::empty(),
    {
        let r = Location { base, names: Vec::new() };
        proof {
            assert(r@.names =~= Seq::<Seq<char>>::empty());
        }
        r
    }

    /// The path one name further.
    pub fn join(self, name: &str) -> (r: Location<P>)
        ensures
            r@ == self@.join(name@),
    {
        let ghost was = self@;
        let base = self.base;
        let mut names = self.names;
        names.push(name.to_string());
        let r = Location { base, names };
        proof {
            assert(r@.names =~= was.names.push(name@));
        }
        r
    }
}

/// The command that prints the entry of a user in the user database.
pub open spec fn passwd_query_view(user: Seq<char>) -> CommandView {
    CommandView { program: "getent"@, args: seq!["passwd"@, user] }
}

/// The command that prints the entry of a user in the user database.
pub fn passwd_query(user: &str) -> (r: Command)
    ensures
        r@ == passwd_query_view(user@),
        r.program@ == "getent"@,
        r.args@.len() == 2,
        r.args@[0]@ == "passwd"@,
        r.args@[1]@ == user@,
{
    let r = Command::new("getent").arg("passwd").arg(user);
    proof {
        assert(r@.args.len() == r.args@.len());
        assert(r@.args[0] == r.args@[0]@ && r@.args[1] == r.args@[1]@);
        assert(r@.args =~= passwd_query_view(user@).args);
    }
    r
}

/// The home directory in an entry of the user database: the sixth of the fields that colons part,
/// where the entry is text and has so many.
pub open spec fn entry_home(entry: Seq<u8>) -> Option<Seq<char>> {
    if vstd::utf8::valid_utf8(entry) {
        let fields = split(vstd::utf8::decode_utf8(entry), ':');
        if fields.len() > 5 {
            Some(fields[5])
        } else {
            None
        }
    } else {
        None
    }
}

/// The home directory in an entry of the user database.
pub fn passwd_home(entry: Vec<u8>) -> (r: Option<String>)
    ensures
        match r {
            Some(home) => entry_home(entry@) == Some(home@),
            None => entry_home(entry@) is None,
        },
{
    match from_utf8(entry) {
        Some(line) => {
            let fields = split_at_char(line.as_str(), ':');
            if fields.len() > 5 {
                proof {
                    assert(texts(fields@)[5] == fields@[5]@);
                }
                Some(fields[5].clone())
            } else {
                proof {
                    assert(texts(fields@).len() == fields@.len());
                }
                None
            }
        },
        None => None,
    }
}

/// The directory for configuration files. Under `sudo` it is that of the user who called it: in
/// the home directory that the user database gives, else under `/home`. Without, it is the one
/// that the system names, else the working directory.
pub open spec fn config_dir_view<P>(
    sudo_user: Option<String>,
    entry: Option<Vec<u8>>,
    system: Option<P>,
) -> LocationView<P> {
    match sudo_user {
        Some(user) => {
            let home = match entry {
                Some(bytes) => entry_home(bytes@),
                None => None,
            };
            LocationView {
                base: BaseView::Text(
                    match home {
                        Some(path) => path,
                        None => "/home/"@ + user@,
                    },
                ),
                names: seq![".config"@],
            }
        },
        None => LocationView {
            base: match system {
                Some(dir) => BaseView::Native(dir),
                None => BaseView::Text("."@),
            },
            names: Seq::empty(),
        },
    }
}

/// The directory for configuration files, given the user who called `sudo`, if it was called, what
/// [`passwd_query`] printed for that user, if it could be run, and the directory that the system
/// names, if it names one.
pub fn get_config_dir<P>(
    sudo_user: Option<String>,
    entry: Option<Vec<u8>>,
    system: Option<P>,
) -> (r: Location<P>)
    ensures
        r@ == config_dir_view(sudo_user, entry, system),
{
    match sudo_user {
        Some(user) => {
            let home = match entry {
                Some(bytes) => passwd_home(bytes),
                None => None,
            };
            let base = match home {
                Some(path) => path,
                None => {
                    let mut path: String = "/home/".to_string();
                    path.append(user.as_str());
                    path
                },
            };
            let r = Location::at(Base::Text(base)).join(".config");
            proof {
                assert(r@.names =~= seq![".config"@]);
            }
            r
        },
        None => match system {
            Some(dir) => Location::at(Base::Native(dir)),
            None => Location::at(Base::Text(".".to_string())),
        },
    }
}

/// In an entry of the form `name:password:uid:gid:gecos:home:shell`, whatever the fields are and
/// whatever follows the home directory, that directory is found.
pub proof fn law_home_is_found(fields: Seq<Seq<char>>)
    requires
        fields.len() > 5,
        forall|k: int| 0 <= k < fields.len() ==> !(#[trigger] fields[k]).contains(':'),
    ensures
        entry_home(vstd::utf8::encode_utf8(join(fields, ':'))) == Some(fields[5]),
{
    let line = join(fields, ':');
    vstd::utf8::encode_utf8_valid_utf8(line);
    vstd::utf8::encode_utf8_decode_utf8(line);
    lemma_split_join(fields, ':');
}

/// An entry that is no text, or has fewer than six fields, names no home directory.
pub proof fn law_short_entry_has_no_home(entry: Seq<u8>, fields: Seq<Seq<char>>)
    requires
        0 < fields.len() <= 5,
        forall|k: int| 0 <= k < fields.len() ==> !(#[trigger] fields[k]).contains(':'),
    ensures
        entry_home(vstd::utf8::encode_utf8(join(fields, ':'))) is None,
        !vstd::utf8::valid_utf8(entry) ==> entry_home(entry) is None,
{
    let line = join(fields, ':');
    vstd::utf8::encode_utf8_valid_utf8(line);
    vstd::utf8::encode_utf8_decode_utf8(line);
    lemma_split_join(fields, ':');
}

/// Under `sudo` the files are those of the user who called it, whatever the system names: under the
/// home directory of the entry, or under `/home` where there is none. Without `sudo` they stand where
/// the system says, whatever an entry holds.
pub proof fn law_files_are_those_of_the_caller<P>(
    user: String,
    entry: Option<Vec<u8>>,
    system: Option<P>,
)
    ensures
        ({
            let dir = config_dir_view(Some(user), entry, system);
            &&& dir.names == seq![".config"@]
            &&& entry is None ==> dir.base == BaseView::<P>::Text("/home/"@ + user@)
            &&& entry matches Some(bytes) ==> dir.base == BaseView::<P>::Text(
                if entry_home(bytes@) is Some {
                    entry_home(bytes@)->0
                } else {
                    "/home/"@ + user@
                },
            )
        }),
        ({
            let dir = config_dir_view(None, entry, system);
            &&& dir.names.len() == 0
            &&& system matches Some(named) ==> dir.base == BaseView::<P>::Native(named)
            &&& system is None ==> dir.base == BaseView::<P>::Text("."@)
        }),
{
}

/// Going one name further keeps the directory and the names so far.
pub proof fn law_join_goes_one_name_further<P>(path: LocationView<P>, name: Seq<char>)
    ensures
        path.join(name).base == path.base,
        path.join(name).names.len() == path.names.len() + 1,
        path.join(name).names.last() == name,
        path.join(name).names.drop_last() == path.names,
{
    assert(path.join(name).names.drop_last() =~= path.names);
}

} // verus!
