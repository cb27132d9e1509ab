//! Where the home directory and the configuration file are.

use crate::errors::{outcome, Error, ErrorView, Result};
use crate::host::{Host, HostView};
use crate::paths::{join_path, joined_path, law_joining_spelled_out};
use crate::text::{bytes_of, utf8};
use vstd::prelude::*;
use vstd::string::*;
use vstd::utf8::{is_ascii_chars, is_ascii_chars_encode_utf8};

verus! {

impl HostView {
    /// The home directory, by `$HOME`.
    pub open spec fn home_dir(self) -> Result<Seq<u8>, ErrorView> {
        match self.var("HOME"@) {
            Some(home) => Ok(home),
            None => Err(ErrorView::MissingEnvVar { name: "HOME"@ }),
        }
    }

    /// `redoubtful/config.toml` beneath `$XDG_CONFIG_HOME` where that is
    /// set and not empty, and beneath `$HOME/.config` otherwise.
    pub open spec fn config_path(self) -> Result<Seq<u8>, ErrorView> {
        let base = match self.var("XDG_CONFIG_HOME"@) {
            Some(dir) => if dir.len() > 0 {
                Ok(dir)
            } else {
                self.home_config()
            },
            None => self.home_config(),
        };
        match base {
            Ok(dir) => Ok(
                joined_path(joined_path(dir, utf8("redoubtful"@)), utf8("config.toml"@)),
            ),
            Err(e) => Err(e),
        }
    }

    /// `$HOME/.config`
    pub open spec fn home_config(self) -> Result<Seq<u8>, ErrorView> {
        match self.home_dir() {
            Ok(home) => Ok(joined_path(home, utf8(".config"@))),
            Err(e) => Err(e),
        }
    }
}

/// The home directory, by `$HOME`.
pub fn home_dir(host: &Host) -> (r: Result<Vec<u8>>)
    ensures
        outcome(r) == host@.home_dir(),
{
    match host.var_os("HOME") {
        Some(home) => Ok(home),
        None => Err(Error::missing_env_var("HOME")),
    }
}

/// `$HOME/.config`
fn home_config(host: &Host) -> (r: Result<Vec<u8>>)
    ensures
        outcome(r) == host@.home_config(),
{
    match home_dir(host) {
        Ok(home) => Ok(join_path(home.as_slice(), bytes_of(".config").as_slice())),
        Err(e) => Err(e),
    }
}

/// Where the configuration file is. Only where neither `$XDG_CONFIG_HOME`
/// nor `$HOME` says so is that an error.
pub fn config_path(host: &Host) -> (r: Result<Vec<u8>>)
    ensures
        outcome(r) == host@.config_path(),
{
    let base = match host.var_os("XDG_CONFIG_HOME") {
        Some(dir) => if dir.len() > 0 {
            Ok(dir)
        } else {
            home_config(host)
        },
        None => home_config(host),
    };
    match base {
        Ok(dir) => {
            let ours = join_path(dir.as_slice(), bytes_of("redoubtful").as_slice());
            Ok(join_path(ours.as_slice(), bytes_of("config.toml").as_slice()))
        },
        Err(e) => Err(e),
    }
}

// ---------------------------------------------------------------------
// Laws
// ---------------------------------------------------------------------
/// A file name is ASCII, does not begin with a `/` and does not end with
/// one.
proof fn lemma_file_names()
    ensures
        utf8("redoubtful"@).len() > 0 && utf8("redoubtful"@)[0] != 0x2fu8,
        utf8("redoubtful"@).last() != 0x2fu8,
        utf8("config.toml"@).len() > 0 && utf8("config.toml"@)[0] != 0x2fu8,
        utf8(".config"@).len() > 0 && utf8(".config"@)[0] != 0x2fu8,
        utf8(".config"@).last() != 0x2fu8,
{
    reveal_strlit("redoubtful");
    reveal_strlit("config.toml");
    reveal_strlit(".config");
    assert(is_ascii_chars("redoubtful"@));
    assert(is_ascii_chars("config.toml"@));
    assert(is_ascii_chars(".config"@));
    is_ascii_chars_encode_utf8("redoubtful"@);
    is_ascii_chars_encode_utf8("config.toml"@);
    is_ascii_chars_encode_utf8(".config"@);
    assert("redoubtful"@[0] == 'r' && "redoubtful"@.last() == 'l');
    assert("config.toml"@[0] == 'c');
    assert(".config"@[0] == '.' && ".config"@.last() == 'g');
}

/// The configuration file is `redoubtful/config.toml` beneath
/// `$XDG_CONFIG_HOME`, where that is set to something, and
/// `.config/redoubtful/config.toml` beneath `$HOME` otherwise; where
/// neither is set, it is nowhere. (A directory that ends with `/` gets no
/// second one.)
pub proof fn law_config_file_is_found(host: HostView, xdg: Seq<u8>, home: Seq<u8>)
    ensures
        host.var("XDG_CONFIG_HOME"@) == Some(xdg) && xdg.len() > 0 && xdg.last() != 0x2fu8
            ==> host.config_path() == Ok::<Seq<u8>, ErrorView>(
            xdg + seq![0x2fu8] + utf8("redoubtful"@) + seq![0x2fu8] + utf8("config.toml"@),
        ),
        host.var("XDG_CONFIG_HOME"@) == Some(xdg) && xdg.len() > 0 && xdg.last() == 0x2fu8
            ==> host.config_path() == Ok::<Seq<u8>, ErrorView>(
            xdg + utf8("redoubtful"@) + seq![0x2fu8] + utf8("config.toml"@),
        ),
        (host.var("XDG_CONFIG_HOME"@) is None || host.var("XDG_CONFIG_HOME"@) == Some(
            Seq::<u8>::empty(),
        )) && host.var("HOME"@) == Some(home) && home.len() > 0 && home.last() != 0x2fu8
            ==> host.config_path() == Ok::<Seq<u8>, ErrorView>(
            home + seq![0x2fu8] + utf8(".config"@) + seq![0x2fu8] + utf8("redoubtful"@) + seq![
                0x2fu8,
            ] + utf8("config.toml"@),
        ),
        (host.var("XDG_CONFIG_HOME"@) is None || host.var("XDG_CONFIG_HOME"@) == Some(
            Seq::<u8>::empty(),
        )) && host.var("HOME"@) is None ==> host.config_path() == Err::<Seq<u8>, ErrorView>(
            ErrorView::MissingEnvVar { name: "HOME"@ },
        ),
        host.var("HOME"@) == Some(home) ==> host.home_dir() == Ok::<Seq<u8>, ErrorView>(home),
        host.var("HOME"@) is None ==> host.home_dir() == Err::<Seq<u8>, ErrorView>(
            ErrorView::MissingEnvVar { name: "HOME"@ },
        ),
{
    lemma_file_names();
    let ours = utf8("redoubtful"@);
    let file = utf8("config.toml"@);
    let dot = utf8(".config"@);
    law_joining_spelled_out(xdg, ours);
    law_joining_spelled_out(joined_path(xdg, ours), file);
    law_joining_spelled_out(home, dot);
    let config = joined_path(home, dot);
    law_joining_spelled_out(config, ours);
    law_joining_spelled_out(joined_path(config, ours), file);
    if xdg.len() > 0 {
        assert(joined_path(xdg, ours).last() == ours.last());
    }
    if home.len() > 0 {
        assert(config.last() == dot.last());
        assert(joined_path(config, ours).last() == ours.last());
    }
}

} // verus!
