//! The configuration: its fields and defaults, where it is looked up, and who
//! owns it.

use crate::paths::{
    byte_views, components, is_below, is_name, is_same_path, join_bytes, law_join_adds_a_component,
    lies_below, path_components, path_join, same_bytes, same_path, SLASH,
};
use crate::text::{
    all_digits, decimal, decimal_value, law_decimal_digits_spell_the_number, text_of, to_chars,
};
use vstd::prelude::*;
use vstd::slice::{slice_subrange, slice_to_vec};
use vstd::utf8::{encode_utf8, is_ascii_chars_encode_utf8};

verus! {

/// What the user can set.
#[derive(Debug, PartialEq)]
pub struct Config {
    pub btr_pool_dir: String,
    pub snapshots_dir: String,
    pub auto_cleanup: bool,
    pub confirm_actions: bool,
    pub show_timestamps: bool,
    pub theme: String,
}

/// A configuration as texts.
pub struct ConfigView {
    pub btr_pool_dir: Seq<char>,
    pub snapshots_dir: Seq<char>,
    pub auto_cleanup: bool,
    pub confirm_actions: bool,
    pub show_timestamps: bool,
    pub theme: Seq<char>,
}

impl View for Config {
    type V = ConfigView;

    open spec fn view(&self) -> ConfigView {
        ConfigView {
            btr_pool_dir: self.btr_pool_dir@,
            snapshots_dir: self.snapshots_dir@,
            auto_cleanup: self.auto_cleanup,
            confirm_actions: self.confirm_actions,
            show_timestamps: self.show_timestamps,
            theme: self.theme@,
        }
    }
}

/// The configuration of someone who has set nothing.
pub open spec fn default_config() -> ConfigView {
    ConfigView {
        btr_pool_dir: "/mnt/btr_pool"@,
        snapshots_dir: "/mnt/btr_pool/btrbk_snapshots"@,
        auto_cleanup: false,
        confirm_actions: true,
        show_timestamps: true,
        theme: "default"@,
    }
}

impl Default for Config {
    fn default() -> (config: Self)
        ensures
            config@ == default_config(),
    {
        Config {
            btr_pool_dir: "/mnt/btr_pool".to_owned(),
            snapshots_dir: "/mnt/btr_pool/btrbk_snapshots".to_owned(),
            auto_cleanup: false,
            confirm_actions: true,
            show_timestamps: true,
            theme: "default".to_owned(),
        }
    }
}

// ---------------------------------------------------------------------------
// The user behind sudo or pkexec

/// The user behind sudo or pkexec.
#[derive(Debug)]
pub struct InvokingUser {
    pub uid: u32,
    pub gid: u32,
    pub home: Vec<u8>,
}

/// The number that `s` spells in decimal, an optional "+" before it, if it
/// fits 32 bits.
pub open spec fn number_in(s: Seq<char>) -> Option<u32> {
    let digits = if s.len() > 0 && s[0] == '+' {
        s.drop_first()
    } else {
        s
    };
    if digits.len() > 0 && all_digits(digits) && decimal_value(digits) <= u32::MAX {
        Some(decimal_value(digits) as u32)
    } else {
        None
    }
}

/// Reads a 32-bit number.
pub fn parse_number(s: &str) -> (r: Option<u32>)
    ensures
        r == number_in(s@),
{
    let chars = to_chars(s);
    let digits = if chars.len() > 0 && chars[0] == '+' {
        assert(chars@.subrange(1, chars@.len() as int) =~= chars@.drop_first());
        slice_subrange(chars.as_slice(), 1, chars.len())
    } else {
        chars.as_slice()
    };
    if digits.len() == 0 {
        return None;
    }
    let mut value: u64 = 0;
    let mut i: usize = 0;
    let mut too_big: bool = false;
    while i < digits.len()
        invariant
            i <= digits@.len(),
            digits@ == if s@.len() > 0 && s@[0] == '+' {
                s@.drop_first()
            } else {
                s@
            },
            forall|k: int| 0 <= k < i ==> '0' <= #[trigger] digits@[k] <= '9',
            !too_big ==> value == decimal_value(digits@.take(i as int)) && value <= u32::MAX,
            too_big ==> decimal_value(digits@.take(i as int)) > u32::MAX,
        decreases digits@.len() - i,
    {
        let c: char = digits[i];
        if !('0' <= c && c <= '9') {
            assert(!all_digits(digits@));
            return None;
        }
        assert(digits@.take(i + 1).drop_last() =~= digits@.take(i as int));
        assert(digits@.take(i + 1).last() == c);
        if !too_big {
            value = value * 10 + (c as u32 - 48) as u64;
            too_big = value > u32::MAX as u64;
        }
        i = i + 1;
    }
    assert(digits@.take(i as int) =~= digits@);
    if too_big {
        None
    } else {
        Some(value as u32)
    }
}

/// The id of the invoking user: what sudo set, or else pkexec. Root itself
/// does not count.
pub open spec fn uid_in(sudo_uid: Option<Seq<char>>, pkexec_uid: Option<Seq<char>>) -> Option<
    u32,
> {
    let value = match sudo_uid {
        Some(uid) => Some(uid),
        None => pkexec_uid,
    };
    match value {
        Some(text) => match number_in(text) {
            Some(uid) => if uid == 0 {
                None
            } else {
                Some(uid)
            },
            None => None,
        },
        None => None,
    }
}

/// The id of the user behind sudo or pkexec, from the variables SUDO_UID and
/// PKEXEC_UID.
pub fn invoking_uid(sudo_uid: Option<String>, pkexec_uid: Option<String>) -> (uid: Option<u32>)
    ensures
        uid == uid_in(text_of(sudo_uid), text_of(pkexec_uid)),
{
    let value = match sudo_uid {
        Some(uid) => Some(uid),
        None => pkexec_uid,
    };
    match value {
        Some(text) => match parse_number(text.as_str()) {
            Some(uid) => if uid == 0 {
                None
            } else {
                Some(uid)
            },
            None => None,
        },
        None => None,
    }
}

// ---------------------------------------------------------------------------
// Where the configuration lives

/// The bytes of a text.
pub open spec fn bytes_of(s: Seq<char>) -> Seq<u8> {
    encode_utf8(s)
}

/// The configuration file in a directory `dir` below the `.config` of a home.
pub open spec fn config_in(home: Seq<u8>, dir: Seq<u8>) -> Seq<u8> {
    path_join(
        path_join(path_join(home, bytes_of(".config"@), SLASH), dir, SLASH),
        bytes_of("config.json"@),
        SLASH,
    )
}

/// The homes to look in, most wanted first: the invoking user's, then one's
/// own if it is another. Never a directory that everyone can write to: this
/// tool runs as root, and the configuration decides which paths it renames
/// and deletes.
pub open spec fn homes(invoking_home: Option<Seq<u8>>, home: Option<Seq<u8>>) -> Seq<Seq<u8>> {
    match (invoking_home, home) {
        (Some(invoking), Some(own)) => if same_path(invoking, own) {
            seq![invoking]
        } else {
            seq![invoking, own]
        },
        (Some(invoking), None) => seq![invoking],
        (None, Some(own)) => seq![own],
        (None, None) => seq![bytes_of("/root"@)],
    }
}

/// The files that may hold the configuration, most wanted first.
pub open spec fn candidates(hs: Seq<Seq<u8>>) -> Seq<Seq<u8>> {
    hs.map_values(|h: Seq<u8>| config_in(h, bytes_of("btrbk_tui"@))) + hs.map_values(
        |h: Seq<u8>| config_in(h, bytes_of("btrbk_restore"@)),
    )
}

/// The bytes behind an optional slice.
pub open spec fn bytes_behind(o: Option<&[u8]>) -> Option<Seq<u8>> {
    match o {
        Some(b) => Some(b@),
        None => None,
    }
}

/// The bytes behind an optional vector.
pub open spec fn owned_bytes(o: Option<Vec<u8>>) -> Option<Seq<u8>> {
    match o {
        Some(b) => Some(b@),
        None => None,
    }
}

/// Builds the path of the configuration below a home.
fn config_path_in(home: &[u8], dir: &str) -> (path: Vec<u8>)
    ensures
        path@ == config_in(home@, bytes_of(dir@)),
{
    let below = join_bytes(home, ".config".as_bytes());
    let below = join_bytes(below.as_slice(), dir.as_bytes());
    join_bytes(below.as_slice(), "config.json".as_bytes())
}

/// Where the configuration may live, most wanted first. Under sudo or pkexec
/// it belongs to the user who invoked the tool, not to root: that is where
/// they create it, since sudo resets HOME to /root. `btrbk_restore` is the
/// name the directory had until 2025-09: it is still read, never written.
pub fn config_candidates(invoking_home: Option<&[u8]>, home: Option<&[u8]>) -> (paths: Vec<Vec<u8>>)
    ensures
        byte_views(paths@) == candidates(homes(bytes_behind(invoking_home), bytes_behind(home))),
        paths@.len() > 0,
{
    let mut all: Vec<Vec<u8>> = Vec::new();
    if let Some(invoking) = invoking_home {
        all.push(slice_to_vec(invoking));
    }
    if let Some(own) = home {
        let known = match invoking_home {
            Some(invoking) => is_same_path(invoking, own),
            None => false,
        };
        if !known {
            all.push(slice_to_vec(own));
        }
    }
    if all.len() == 0 {
        all.push(slice_to_vec("/root".as_bytes()));
    }
    let ghost hs = homes(bytes_behind(invoking_home), bytes_behind(home));
    assert(byte_views(all@) =~= hs);
    let ghost current = hs.map_values(|h: Seq<u8>| config_in(h, bytes_of("btrbk_tui"@)));
    let ghost legacy = hs.map_values(|h: Seq<u8>| config_in(h, bytes_of("btrbk_restore"@)));
    let mut paths: Vec<Vec<u8>> = Vec::new();
    let mut i: usize = 0;
    while i < all.len()
        invariant
            i <= all@.len(),
            byte_views(all@) == hs,
            current == hs.map_values(|h: Seq<u8>| config_in(h, bytes_of("btrbk_tui"@))),
            byte_views(paths@) == current.take(i as int),
        decreases all@.len() - i,
    {
        let ghost paths0 = paths@;
        assert(hs[i as int] == all@[i as int]@);
        paths.push(config_path_in(all[i].as_slice(), "btrbk_tui"));
        assert(byte_views(paths@) =~= byte_views(paths0).push(current[i as int]));
        assert(current.take(i + 1) =~= current.take(i as int).push(current[i as int]));
        i = i + 1;
    }
    assert(current.take(i as int) =~= current);
    let mut i: usize = 0;
    assert(current + legacy.take(0) =~= current);
    while i < all.len()
        invariant
            i <= all@.len(),
            byte_views(all@) == hs,
            legacy == hs.map_values(|h: Seq<u8>| config_in(h, bytes_of("btrbk_restore"@))),
            byte_views(paths@) == current + legacy.take(i as int),
        decreases all@.len() - i,
    {
        let ghost paths0 = paths@;
        assert(hs[i as int] == all@[i as int]@);
        paths.push(config_path_in(all[i].as_slice(), "btrbk_restore"));
        assert(byte_views(paths@) =~= byte_views(paths0).push(legacy[i as int]));
        assert(current + legacy.take(i + 1) =~= (current + legacy.take(i as int)).push(
            legacy[i as int],
        ));
        i = i + 1;
    }
    assert(legacy.take(i as int) =~= legacy);
    assert(paths@.len() == byte_views(paths@).len());
    paths
}

/// Whether a configuration file lies in a directory of the old name.
pub open spec fn is_legacy(path: Seq<u8>) -> bool {
    let parts = path_components(path);
    parts.len() >= 2 && parts[parts.len() - 2] == bytes_of("btrbk_restore"@)
}

/// Whether a configuration file is at an old location.
pub fn is_legacy_config(path: &[u8]) -> (yes: bool)
    ensures
        yes == is_legacy(path@),
{
    let parts = components(path);
    if parts.len() < 2 {
        return false;
    }
    assert(path_components(path@)[parts@.len() - 2] == parts@[parts@.len() - 2]@);
    same_bytes(parts[parts.len() - 2].as_slice(), "btrbk_restore".as_bytes())
}

/// Where the configuration is saved, and where it was read from when that is
/// somewhere else.
#[derive(Debug)]
pub struct ConfigLocation {
    pub path: Vec<u8>,
    pub read_from: Option<Vec<u8>>,
}

/// A location as bytes.
pub struct ConfigLocationView {
    pub path: Seq<u8>,
    pub read_from: Option<Seq<u8>>,
}

impl View for ConfigLocation {
    type V = ConfigLocationView;

    open spec fn view(&self) -> ConfigLocationView {
        ConfigLocationView { path: self.path@, read_from: owned_bytes(self.read_from) }
    }
}

/// The first of `paths` that is a file.
pub open spec fn first_file(paths: Seq<Seq<u8>>, is_file: Seq<bool>) -> Option<Seq<u8>>
    decreases paths.len(),
{
    if paths.len() == 0 || is_file.len() == 0 {
        None
    } else if is_file[0] {
        Some(paths[0])
    } else {
        first_file(paths.drop_first(), is_file.drop_first())
    }
}

/// Where the configuration is: the file asked for, else the first candidate
/// that exists. An old location is read but never written: saving moves the
/// settings to the current name.
pub open spec fn location_among(
    config_file: Option<Seq<u8>>,
    paths: Seq<Seq<u8>>,
    is_file: Seq<bool>,
) -> ConfigLocationView {
    match config_file {
        Some(path) => ConfigLocationView { path, read_from: None },
        None => match first_file(paths, is_file) {
            Some(found) => if is_legacy(found) {
                ConfigLocationView { path: paths[0], read_from: Some(found) }
            } else {
                ConfigLocationView { path: found, read_from: None }
            },
            None => ConfigLocationView { path: paths[0], read_from: None },
        },
    }
}

/// Decides which file holds the configuration. `config_file` is the --config
/// option; `is_file` tells which of the candidates exist.
pub fn locate_config(
    config_file: Option<Vec<u8>>,
    paths: &Vec<Vec<u8>>,
    is_file: &Vec<bool>,
) -> (location: ConfigLocation)
    requires
        paths@.len() > 0,
    ensures
        location@ == location_among(owned_bytes(config_file), byte_views(paths@), is_file@),
{
    if let Some(path) = config_file {
        return ConfigLocation { path, read_from: None };
    }
    let ghost all = byte_views(paths@);
    let mut i: usize = 0;
    assert(all.skip(0) =~= all);
    assert(is_file@.skip(0) =~= is_file@);
    while i < paths.len() && i < is_file.len()
        invariant
            paths@.len() > 0,
            i <= paths@.len(),
            i <= is_file@.len(),
            all == byte_views(paths@),
            owned_bytes(config_file) is None,
            first_file(all, is_file@) == first_file(
                all.skip(i as int),
                is_file@.skip(i as int),
            ),
        decreases paths@.len() - i,
    {
        assert(all.skip(i as int)[0] == paths@[i as int]@);
        assert(is_file@.skip(i as int)[0] == is_file@[i as int]);
        assert(all.skip(i as int).drop_first() =~= all.skip(i + 1));
        assert(is_file@.skip(i as int).drop_first() =~= is_file@.skip(i + 1));
        if is_file[i] {
            let found = slice_to_vec(paths[i].as_slice());
            if is_legacy_config(paths[i].as_slice()) {
                return ConfigLocation {
                    path: slice_to_vec(paths[0].as_slice()),
                    read_from: Some(found),
                };
            }
            return ConfigLocation { path: found, read_from: None };
        }
        i = i + 1;
    }
    ConfigLocation { path: slice_to_vec(paths[0].as_slice()), read_from: None }
}

/// Who a saved configuration is given to: the invoking user, when it lies in
/// their home.
pub fn config_owner(invoking: &Option<InvokingUser>, config_path: &[u8]) -> (owner: Option<
    (u32, u32),
>)
    ensures
        owner == match *invoking {
            Some(user) => if lies_below(config_path@, user.home@) {
                Some((user.uid, user.gid))
            } else {
                None
            },
            None => None,
        },
{
    match invoking {
        Some(user) => if is_below(config_path, user.home.as_slice()) {
            Some((user.uid, user.gid))
        } else {
            None
        },
        None => None,
    }
}

// ---------------------------------------------------------------------------
// Laws

/// The directory and file names of the configuration are single components.
proof fn lemma_config_names()
    ensures
        is_name(bytes_of(".config"@)),
        is_name(bytes_of("btrbk_tui"@)),
        is_name(bytes_of("btrbk_restore"@)),
        is_name(bytes_of("config.json"@)),
        bytes_of("btrbk_tui"@) != bytes_of("btrbk_restore"@),
{
    reveal_strlit(".config");
    reveal_strlit("btrbk_tui");
    reveal_strlit("btrbk_restore");
    reveal_strlit("config.json");
    is_ascii_chars_encode_utf8(".config"@);
    is_ascii_chars_encode_utf8("btrbk_tui"@);
    is_ascii_chars_encode_utf8("btrbk_restore"@);
    is_ascii_chars_encode_utf8("config.json"@);
    assert(bytes_of("btrbk_tui"@).len() != bytes_of("btrbk_restore"@).len());
}

/// The components of a configuration path.
proof fn lemma_config_components(home: Seq<u8>, dir: Seq<u8>)
    requires
        is_name(dir),
    ensures
        path_components(config_in(home, dir)) == path_components(home).push(
            bytes_of(".config"@),
        ).push(dir).push(bytes_of("config.json"@)),
{
    lemma_config_names();
    let a = path_join(home, bytes_of(".config"@), SLASH);
    law_join_adds_a_component(home, bytes_of(".config"@));
    law_join_adds_a_component(a, dir);
    law_join_adds_a_component(path_join(a, dir, SLASH), bytes_of("config.json"@));
}

/// Under every home the current name is not the old one, and the old one is
/// recognised.
pub proof fn law_old_locations_are_recognised(home: Seq<u8>)
    ensures
        !is_legacy(config_in(home, bytes_of("btrbk_tui"@))),
        is_legacy(config_in(home, bytes_of("btrbk_restore"@))),
{
    lemma_config_names();
    lemma_config_components(home, bytes_of("btrbk_tui"@));
    lemma_config_components(home, bytes_of("btrbk_restore"@));
}

/// The configuration belongs to the user behind sudo: the first candidate
/// lies in their home.
pub proof fn law_config_belongs_to_the_invoking_user(
    invoking_home: Seq<u8>,
    home: Option<Seq<u8>>,
)
    ensures
        lies_below(candidates(homes(Some(invoking_home), home))[0], invoking_home),
{
    lemma_config_names();
    lemma_config_components(invoking_home, bytes_of("btrbk_tui"@));
    let parts = path_components(candidates(homes(Some(invoking_home), home))[0]);
    let base = path_components(invoking_home);
    assert(parts.subrange(0, base.len() as int) =~= base);
}

/// Every candidate lies in one of the homes: there is no fallback elsewhere.
pub proof fn law_candidates_lie_in_the_homes(hs: Seq<Seq<u8>>, i: int)
    requires
        0 <= i < candidates(hs).len(),
    ensures
        exists|k: int| 0 <= k < hs.len() && lies_below(candidates(hs)[i], #[trigger] hs[k]),
{
    lemma_config_names();
    let k = if i < hs.len() {
        i
    } else {
        i - hs.len()
    };
    lemma_config_components(hs[k], bytes_of("btrbk_tui"@));
    lemma_config_components(hs[k], bytes_of("btrbk_restore"@));
    let parts = path_components(candidates(hs)[i]);
    let base = path_components(hs[k]);
    assert(parts.subrange(0, base.len() as int) =~= base);
}

/// An old location is never written: unless the user names a file, the
/// configuration is saved under the current name.
pub proof fn law_old_locations_are_never_written(hs: Seq<Seq<u8>>, is_file: Seq<bool>)
    requires
        hs.len() > 0,
    ensures
        !is_legacy(location_among(None, candidates(hs), is_file).path),
        location_among(None, candidates(hs), is_file).read_from matches Some(old) ==> is_legacy(
            old,
        ),
{
    law_old_locations_are_recognised(hs[0]);
    assert(candidates(hs)[0] == config_in(hs[0], bytes_of("btrbk_tui"@)));
}

/// The paths to give to the owner of the configuration after it has been
/// saved: the directories created for it and the file itself, or none when
/// whoever runs the tool keeps it.
pub fn paths_to_hand_over(
    owner: Option<(u32, u32)>,
    created: &Vec<Vec<u8>>,
    config_path: &Vec<u8>,
) -> (paths: Vec<Vec<u8>>)
    ensures
        byte_views(paths@) == if owner is Some {
            byte_views(created@).push(config_path@)
        } else {
            Seq::empty()
        },
{
    let mut paths: Vec<Vec<u8>> = Vec::new();
    assert(byte_views(paths@) =~= byte_views(created@).take(0));
    if owner.is_none() {
        return paths;
    }
    let mut i: usize = 0;
    while i < created.len()
        invariant
            i <= created@.len(),
            byte_views(paths@) == byte_views(created@).take(i as int),
        decreases created@.len() - i,
    {
        let ghost paths0 = paths@;
        let path = created[i].clone();
        assert(path@ =~= created@[i as int]@);
        paths.push(path);
        assert(byte_views(paths@) =~= byte_views(paths0).push(created@[i as int]@));
        assert(byte_views(created@).take(i + 1) =~= byte_views(created@).take(i as int).push(
            byte_views(created@)[i as int],
        ));
        i = i + 1;
    }
    assert(byte_views(created@).take(i as int) =~= byte_views(created@));
    let ghost paths0 = paths@;
    let path = config_path.clone();
    assert(path@ =~= config_path@);
    paths.push(path);
    assert(byte_views(paths@) =~= byte_views(paths0).push(config_path@));
    paths
}

/// The settings to begin with.
pub proof fn law_defaults_are_the_usual_ones()
    ensures
        default_config().btr_pool_dir == "/mnt/btr_pool"@,
        default_config().snapshots_dir == "/mnt/btr_pool/btrbk_snapshots"@,
        !default_config().auto_cleanup,
        default_config().confirm_actions,
        default_config().show_timestamps,
        default_config().theme == "default"@,
{
}

/// A number is read from its digits, with or without a plus sign, if it fits;
/// nothing else is a number.
pub proof fn law_numbers_are_read_from_their_digits(n: u32, s: Seq<char>)
    ensures
        number_in(decimal(n as nat)) == Some(n),
        number_in(seq!['+'] + decimal(n as nat)) == Some(n),
        number_in(s) is Some ==> s.len() > 0 && forall|i: int|
            0 < i < s.len() ==> '0' <= #[trigger] s[i] <= '9',
        number_in(s) is Some ==> '0' <= s[0] <= '9' || s[0] == '+' && s.len() > 1,
        number_in(s) matches Some(m) ==> decimal_value(
            if s[0] == '+' {
                s.skip(1)
            } else {
                s
            },
        ) == m,
{
    law_decimal_digits_spell_the_number(n as nat);
    let digits = decimal(n as nat);
    assert('0' <= digits[0] <= '9');
    assert((seq!['+'] + digits).drop_first() =~= digits);
    if number_in(s) is Some {
        let body = if s.len() > 0 && s[0] == '+' {
            s.drop_first()
        } else {
            s
        };
        let from: int = s.len() - body.len();
        assert forall|i: int| from <= i < s.len() implies '0' <= #[trigger] s[i] <= '9' by {
            assert(s[i] == body[i - from]);
        }
        if s[0] == '+' {
            assert(s.skip(1) =~= s.drop_first());
        }
        lemma_digits_spell_no_negative_number(body);
    }
}

proof fn lemma_digits_spell_no_negative_number(s: Seq<char>)
    requires
        all_digits(s),
    ensures
        decimal_value(s) >= 0,
    decreases s.len(),
{
    if s.len() > 0 {
        let init = s.drop_last();
        assert forall|i: int| 0 <= i < init.len() implies '0' <= #[trigger] init[i] <= '9' by {
            assert(init[i] == s[i]);
        }
        assert('0' <= s[s.len() - 1] <= '9');
        lemma_digits_spell_no_negative_number(init);
    }
}

/// The user behind sudo is the one that sudo names, or else the one that pkexec
/// names; root is nobody, and neither is what is no number.
pub proof fn law_invoking_user_is_named_by_sudo_first(
    sudo: Seq<char>,
    pkexec: Option<Seq<char>>,
    uid: u32,
)
    ensures
        uid_in(Some(sudo), pkexec) == Some(uid) <==> number_in(sudo) == Some(uid) && uid != 0,
        uid_in(None, Some(sudo)) == Some(uid) <==> number_in(sudo) == Some(uid) && uid != 0,
        uid_in(None, None) is None,
{
}

/// The configuration of a home is config.json in a directory of its own in the
/// directory .config there.
pub proof fn law_config_has_its_place_in_a_home(home: Seq<u8>, dir: Seq<u8>)
    requires
        is_name(dir),
    ensures
        path_components(config_in(home, dir)) == path_components(home) + seq![
            encode_utf8(".config"@),
            dir,
            encode_utf8("config.json"@),
        ],
{
    lemma_config_names();
    lemma_config_components(home, dir);
    let parts = path_components(config_in(home, dir));
    assert(parts =~= path_components(home) + seq![
        encode_utf8(".config"@),
        dir,
        encode_utf8("config.json"@),
    ]);
}

/// The homes to look into are that of the user behind sudo and one's own, the
/// same one only once, and root's where neither is known.
pub proof fn law_homes_are_looked_into_in_order(a: Seq<u8>, b: Seq<u8>)
    ensures
        path_components(a) != path_components(b) ==> homes(Some(a), Some(b)) == seq![a, b],
        path_components(a) == path_components(b) ==> homes(Some(a), Some(b)) == seq![a],
        homes(Some(a), None) == seq![a],
        homes(None, Some(b)) == seq![b],
        homes(None, None) == seq![encode_utf8("/root"@)],
{
}

/// In every home the current place is looked at, and after all of those the old
/// one.
pub proof fn law_candidates_are_current_places_and_old_ones(hs: Seq<Seq<u8>>, i: int)
    requires
        0 <= i < hs.len(),
    ensures
        candidates(hs).len() == 2 * hs.len(),
        candidates(hs)[i] == config_in(hs[i], encode_utf8("btrbk_tui"@)),
        candidates(hs)[hs.len() + i] == config_in(hs[i], encode_utf8("btrbk_restore"@)),
{
}

/// A place is an old one exactly if its directory is called btrbk_restore.
pub proof fn law_old_places_are_told_by_their_directory(path: Seq<u8>, parts: Seq<Seq<u8>>, name: Seq<u8>, file: Seq<u8>)
    requires
        path_components(path) == parts + seq![name, file],
    ensures
        is_legacy(path) <==> name == encode_utf8("btrbk_restore"@),
{
    let all = parts + seq![name, file];
    assert(all[all.len() - 2] == name);
}

/// A file named by the user is the configuration. Else the first place with a
/// file is, unless it is an old one, which is only read; without any the first
/// place is where it will be saved.
pub proof fn law_first_file_is_the_configuration(
    file: Seq<u8>,
    paths: Seq<Seq<u8>>,
    is_file: Seq<bool>,
    k: int,
)
    requires
        paths.len() == is_file.len() > 0,
    ensures
        location_among(Some(file), paths, is_file) == (ConfigLocationView {
            path: file,
            read_from: None,
        }),
        0 <= k < paths.len() && is_file[k] && (forall|j: int| 0 <= j < k ==> !is_file[j])
            ==> location_among(None, paths, is_file) == if is_legacy(paths[k]) {
            ConfigLocationView { path: paths[0], read_from: Some(paths[k]) }
        } else {
            ConfigLocationView { path: paths[k], read_from: None }
        },
        (forall|j: int| 0 <= j < is_file.len() ==> !is_file[j]) ==> location_among(
            None,
            paths,
            is_file,
        ) == (ConfigLocationView { path: paths[0], read_from: None }),
{
    if 0 <= k < paths.len() && is_file[k] && forall|j: int| 0 <= j < k ==> !is_file[j] {
        lemma_first_file(paths, is_file, k);
    }
    if forall|j: int| 0 <= j < is_file.len() ==> !is_file[j] {
        lemma_first_file(paths, is_file, paths.len() as int);
    }
}

proof fn lemma_first_file(paths: Seq<Seq<u8>>, is_file: Seq<bool>, k: int)
    requires
        paths.len() == is_file.len(),
        0 <= k <= paths.len(),
        forall|j: int| 0 <= j < k ==> !is_file[j],
        k < paths.len() ==> is_file[k],
    ensures
        first_file(paths, is_file) == if k < paths.len() {
            Some(paths[k])
        } else {
            None
        },
    decreases paths.len(),
{
    if k > 0 {
        let (rest, others) = (paths.drop_first(), is_file.drop_first());
        assert(!is_file[0]);
        assert forall|j: int| 0 <= j < k - 1 implies !others[j] by {
            assert(others[j] == is_file[j + 1]);
        }
        if k < paths.len() {
            assert(others[k - 1] == is_file[k]);
        }
        lemma_first_file(rest, others, k - 1);
    }
}

/// The views of paths and locations show what they hold.
pub proof fn law_views_of_locations_show_their_fields(
    location: ConfigLocation,
    path: Vec<u8>,
    slice: &[u8],
    text: Seq<char>,
)
    ensures
        location@.path == location.path@,
        location.read_from is None ==> location@.read_from is None,
        location.read_from matches Some(old) ==> location@.read_from == Some(old@),
        owned_bytes(Some(path)) == Some(path@),
        owned_bytes(None) is None,
        bytes_behind(Some(slice)) == Some(slice@),
        bytes_behind(None) is None,
        bytes_of(text) == encode_utf8(text),
{
}

} // verus!
