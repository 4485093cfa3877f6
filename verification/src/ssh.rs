//! The backup target: where `btrbk.conf` says it is, and how to reach it.

use crate::text::{
    after_prefix, fields, law_lines_end_with_newlines, law_split_is_at_the_first,
    law_stripping_undoes_prefixing, lemma_lines_ended, lemma_lines_joined, lines, replace, replaced,
    spells, split_at_first, split_fields, split_lines, split_once, strip_prefix, text_of, texts,
    to_chars, to_text, views,
};
use vstd::prelude::*;

verus! {

/// The btrbk configuration, read to discover the backup target.
pub fn btrbk_conf() -> (path: &'static str)
    ensures
        path@ == "/etc/btrbk/btrbk.conf"@,
{
    "/etc/btrbk/btrbk.conf"
}

/// Where btrbk sends its backups, as far as ssh is concerned.
#[derive(Debug, PartialEq)]
pub struct SshTarget {
    pub host: String,
    pub port: Option<String>,
    pub path: String,
    pub user: Option<String>,
    pub identity: Option<String>,
}

/// A target as texts.
pub struct SshTargetView {
    pub host: Seq<char>,
    pub port: Option<Seq<char>>,
    pub path: Seq<char>,
    pub user: Option<Seq<char>>,
    pub identity: Option<Seq<char>>,
}

impl View for SshTarget {
    type V = SshTargetView;

    open spec fn view(&self) -> SshTargetView {
        SshTargetView {
            host: self.host@,
            port: text_of(self.port),
            path: self.path@,
            user: text_of(self.user),
            identity: text_of(self.identity),
        }
    }
}

/// The ssh options in effect at some line of the configuration.
pub struct SshOptions {
    pub user: Option<Seq<char>>,
    pub identity: Option<Seq<char>>,
    pub port: Option<Seq<char>>,
}

/// The options in effect before the first line.
pub open spec fn no_options() -> SshOptions {
    SshOptions { user: None, identity: None, port: None }
}

/// What an option line sets its option to: "no" and "default" are how
/// btrbk.conf spells "unset".
pub open spec fn option_value(value: Seq<char>) -> Option<Seq<char>> {
    if value == "no"@ || value == "default"@ {
        None
    } else {
        Some(value)
    }
}

/// The options in effect after a line with the fields `fs`.
pub open spec fn options_after(o: SshOptions, fs: Seq<Seq<char>>) -> SshOptions {
    if fs.len() < 2 {
        o
    } else if fs[0] == "ssh_user"@ {
        SshOptions { user: option_value(fs[1]), ..o }
    } else if fs[0] == "ssh_identity"@ {
        SshOptions { identity: option_value(fs[1]), ..o }
    } else if fs[0] == "ssh_port"@ {
        SshOptions { port: option_value(fs[1]), ..o }
    } else {
        o
    }
}

/// What follows "ssh://" on a line that declares an ssh target, in either of
/// its forms: `target ssh://...` and `target send-receive ssh://...`.
pub open spec fn ssh_address(fs: Seq<Seq<char>>) -> Option<Seq<char>> {
    if fs.len() < 2 || fs[0] != "target"@ {
        None
    } else if "ssh://"@.is_prefix_of(fs[1]) {
        strip_prefix(fs[1], "ssh://"@)
    } else if fs.len() < 3 {
        None
    } else {
        strip_prefix(fs[2], "ssh://"@)
    }
}

/// Host and port of "host", "host:port", "[host]" or "[host]:port"; the
/// brackets are for an IPv6 address, which has colons of its own.
pub open spec fn host_and_port(s: Seq<char>) -> (Seq<char>, Option<Seq<char>>) {
    let bracketed = match strip_prefix(s, seq!['[']) {
        Some(inner) => split_once(inner, ']'),
        None => None,
    };
    match bracketed {
        Some((host, after)) => (host, strip_prefix(after, seq![':'])),
        None => match split_once(s, ':') {
            Some((host, port)) => (host, Some(port)),
            None => (s, None),
        },
    }
}

/// The target at the address `address` under the options `o`. There is none
/// when the address has no path or no host.
pub open spec fn target_at(address: Seq<char>, o: SshOptions) -> Option<SshTargetView> {
    match split_once(address, '/') {
        None => None,
        Some((host_port, path)) => {
            let (host, port) = host_and_port(host_port);
            if host.len() == 0 {
                None
            } else {
                Some(
                    SshTargetView {
                        host,
                        port: match port {
                            Some(port) => Some(port),
                            None => o.port,
                        },
                        path: seq!['/'] + path,
                        user: o.user,
                        identity: o.identity,
                    },
                )
            }
        },
    }
}

/// The first ssh target that the lines `ls` declare, with the options in
/// effect where it is declared; `o` are the options in effect before them.
pub open spec fn first_target(ls: Seq<Seq<char>>, o: SshOptions) -> Option<SshTargetView>
    decreases ls.len(),
{
    if ls.len() == 0 {
        None
    } else {
        match ssh_address(fields(ls[0])) {
            Some(address) => target_at(address, o),
            None => first_target(ls.drop_first(), options_after(o, fields(ls[0]))),
        }
    }
}

/// Whether a line of `ls` declares an ssh target.
pub open spec fn declares_target(ls: Seq<Seq<char>>) -> bool {
    exists|i: int| 0 <= i < ls.len() && #[trigger] ssh_address(fields(ls[i])) is Some
}

/// Reads the value of an option line.
fn read_option(value: &[char]) -> (r: Option<String>)
    ensures
        text_of(r) == option_value(value@),
{
    if spells(value, "no") || spells(value, "default") {
        None
    } else {
        Some(to_text(value))
    }
}

/// Reads a declared ssh address.
fn read_address<'a>(parts: &Vec<&'a [char]>) -> (r: Option<&'a [char]>)
    ensures
        match r {
            Some(address) => ssh_address(views(parts@)) == Some(address@),
            None => ssh_address(views(parts@)) is None,
        },
        r is Some ==> parts@.len() >= 2 && parts@[0]@ == "target"@,
{
    if parts.len() < 2 || !spells(parts[0], "target") {
        return None;
    }
    let scheme = to_chars("ssh://");
    match after_prefix(parts[1], scheme.as_slice()) {
        Some(address) => Some(address),
        None => if parts.len() < 3 {
            None
        } else {
            after_prefix(parts[2], scheme.as_slice())
        },
    }
}

/// Reads host and port.
fn read_host_and_port<'a>(s: &'a [char]) -> (r: (&'a [char], Option<&'a [char]>))
    ensures
        r.0@ == host_and_port(s@).0,
        match r.1 {
            Some(port) => host_and_port(s@).1 == Some(port@),
            None => host_and_port(s@).1 is None,
        },
{
    let open: [char; 1] = ['['];
    let colon: [char; 1] = [':'];
    assert(open@ =~= seq!['[']);
    assert(colon@ =~= seq![':']);
    match after_prefix(s, &open) {
        Some(inner) => {
            if let Some((host, after)) = split_at_first(inner, ']') {
                return (host, after_prefix(after, &colon));
            }
        },
        None => {},
    }
    match split_at_first(s, ':') {
        Some((host, port)) => (host, Some(port)),
        None => (s, None),
    }
}

/// First ssh:// target declared in a btrbk configuration, with the ssh options
/// in effect where it is declared.
pub fn parse_ssh_target(conf: &str) -> (target: Option<SshTarget>)
    ensures
        match target {
            Some(target) => first_target(lines(conf@), no_options()) == Some(target@),
            None => first_target(lines(conf@), no_options()) is None,
        },
{
    let chars = to_chars(conf);
    let rows = split_lines(chars.as_slice());
    let ghost ls = lines(conf@);
    let mut user: Option<String> = None;
    let mut identity: Option<String> = None;
    let mut port_option: Option<String> = None;
    let mut i: usize = 0;
    assert(ls.skip(0) =~= ls);
    while i < rows.len()
        invariant
            i <= rows@.len(),
            ls == lines(conf@),
            views(rows@) == ls,
            first_target(ls, no_options()) == first_target(
                ls.skip(i as int),
                (SshOptions {
                    user: text_of(user),
                    identity: text_of(identity),
                    port: text_of(port_option),
                }),
            ),
        decreases rows@.len() - i,
    {
        let parts = split_fields(rows[i]);
        assert(ls.skip(i as int)[0] == rows@[i as int]@);
        assert(ls.skip(i as int).drop_first() =~= ls.skip(i + 1));
        if let Some(address) = read_address(&parts) {
            let (host_port, path) = match split_at_first(address, '/') {
                Some(split) => split,
                None => {
                    return None;
                },
            };
            let (host, port) = read_host_and_port(host_port);
            if host.len() == 0 {
                return None;
            }
            let mut full_path = String::new();
            full_path.push('/');
            full_path.append(to_text(path).as_str());
            assert(full_path@ =~= seq!['/'] + path@);
            return Some(
                SshTarget {
                    host: to_text(host),
                    port: match port {
                        Some(port) => Some(to_text(port)),
                        None => port_option,
                    },
                    path: full_path,
                    user,
                    identity,
                },
            );
        }
        if parts.len() >= 2 {
            if spells(parts[0], "ssh_user") {
                user = read_option(parts[1]);
            } else if spells(parts[0], "ssh_identity") {
                identity = read_option(parts[1]);
            } else if spells(parts[0], "ssh_port") {
                port_option = read_option(parts[1]);
            }
        }
        i = i + 1;
    }
    None
}

/// A path as one word of a shell command: each single quote in it leaves the
/// quotes, is escaped, and enters them again.
pub open spec fn quoted(path: Seq<char>) -> Seq<char> {
    replace(path, '\'', r"'\''"@)
}

/// The command that lists the target's subvolumes, run on the target.
pub open spec fn list_command(path: Seq<char>) -> Seq<char> {
    "sudo btrfs subvolume list -u -R '"@ + quoted(path) + "'"@
}

/// The option `flag` with its value, or nothing.
pub open spec fn flag_with(flag: Seq<char>, value: Option<Seq<char>>) -> Seq<Seq<char>> {
    match value {
        Some(value) => seq![flag, value],
        None => Seq::empty(),
    }
}

/// The arguments of `ssh` for querying `target`.
pub open spec fn arguments_for(target: SshTargetView) -> Seq<Seq<char>> {
    seq!["-o"@, "ConnectTimeout=10"@, "-o"@, "BatchMode=yes"@] + flag_with("-p"@, target.port)
        + flag_with("-l"@, target.user) + flag_with("-i"@, target.identity) + seq![
        target.host,
        list_command(target.path),
    ]
}

/// Appends the option `flag` with its value, if it has one.
fn push_flag(args: &mut Vec<String>, flag: &str, value: &Option<String>)
    ensures
        texts(final(args)@) == texts(old(args)@) + flag_with(flag@, text_of(*value)),
{
    let ghost before = args@;
    if let Some(value) = value {
        args.push(flag.to_owned());
        args.push(value.clone());
        assert(texts(args@) =~= texts(before) + seq![flag@, value@]);
    } else {
        assert(texts(args@) =~= texts(before) + Seq::empty());
    }
}

/// The arguments of the `ssh` command that lists the subvolumes of the target
/// with their received_uuid. Never asks for a password.
pub fn ssh_arguments(target: &SshTarget) -> (args: Vec<String>)
    ensures
        texts(args@) == arguments_for(target@),
{
    let mut args: Vec<String> = Vec::new();
    args.push("-o".to_owned());
    args.push("ConnectTimeout=10".to_owned());
    args.push("-o".to_owned());
    args.push("BatchMode=yes".to_owned());
    assert(texts(args@) =~= seq!["-o"@, "ConnectTimeout=10"@, "-o"@, "BatchMode=yes"@]);
    push_flag(&mut args, "-p", &target.port);
    push_flag(&mut args, "-l", &target.user);
    push_flag(&mut args, "-i", &target.identity);
    let ghost head = texts(args@);
    let mut command = "sudo btrfs subvolume list -u -R '".to_owned();
    command.append(replaced(target.path.as_str(), '\'', r"'\''").as_str());
    command.append("'");
    args.push(target.host.clone());
    args.push(command);
    assert(texts(args@) =~= head + seq![target.host@, list_command(target.path@)]);
    args
}

// ---------------------------------------------------------------------------
// Laws

/// How a POSIX shell reads one word made of single-quoted parts and characters
/// escaped with a backslash; `None` for anything else.
pub open spec fn shell_word(s: Seq<char>, in_quotes: bool) -> Option<Seq<char>>
    decreases s.len(),
{
    if s.len() == 0 {
        if in_quotes {
            None
        } else {
            Some(Seq::empty())
        }
    } else if s[0] == '\'' {
        shell_word(s.drop_first(), !in_quotes)
    } else if in_quotes {
        match shell_word(s.drop_first(), true) {
            Some(rest) => Some(seq![s[0]] + rest),
            None => None,
        }
    } else if s[0] == '\\' && s.len() >= 2 {
        match shell_word(s.skip(2), false) {
            Some(rest) => Some(seq![s[1]] + rest),
            None => None,
        }
    } else {
        None
    }
}

/// Inside quotes, a quoted path reads as the path.
proof fn lemma_shell_reads_quoted(path: Seq<char>, tail: Seq<char>)
    ensures
        shell_word(quoted(path) + tail, true) == match shell_word(tail, true) {
            Some(rest) => Some(path + rest),
            None => None,
        },
    decreases path.len(),
{
    reveal_strlit(r"'\''");
    let by = r"'\''"@;
    if path.len() == 0 {
        assert(quoted(path) + tail =~= tail);
        if let Some(rest) = shell_word(tail, true) {
            assert(path + rest =~= rest);
        }
    } else {
        let init = path.drop_last();
        let c = path.last();
        let piece = if c == '\'' {
            by
        } else {
            seq![c]
        };
        let after = piece + tail;
        assert(quoted(path) + tail =~= quoted(init) + after);
        lemma_shell_reads_quoted(init, after);
        if c == '\'' {
            assert(after[0] == '\'' && after[1] == '\\' && after[2] == '\'' && after[3] == '\'');
            let escaped = after.drop_first();
            assert(escaped.len() >= 2 && escaped[0] == '\\' && escaped[1] == '\'');
            let reopen = escaped.skip(2);
            assert(reopen[0] == '\'');
            assert(reopen.drop_first() =~= tail);
            assert(shell_word(reopen, false) == shell_word(tail, true));
            assert(shell_word(after, true) == shell_word(escaped, false));
        } else {
            assert(after.drop_first() =~= tail);
        }
        if let Some(rest) = shell_word(tail, true) {
            assert(init + (seq![c] + rest) =~= path + rest);
        }
    }
}

/// The shell on the target reads the quoted path back as the path itself,
/// whatever characters it holds.
pub proof fn law_quoted_path_is_one_word(path: Seq<char>)
    ensures
        shell_word(seq!['\''] + quoted(path) + seq!['\''], false) == Some(path),
{
    let closing = seq!['\''];
    let whole = seq!['\''] + quoted(path) + closing;
    assert(whole.drop_first() =~= quoted(path) + closing);
    lemma_shell_reads_quoted(path, closing);
    assert(closing.drop_first() =~= Seq::empty());
    assert(shell_word(closing.drop_first(), false) == Some(Seq::<char>::empty()));
    assert(path + Seq::empty() =~= path);
}

/// What follows the line of the first ssh target changes nothing: options set
/// later, and later targets, are not in effect for it.
pub proof fn law_first_target_ignores_later_lines(
    ls: Seq<Seq<char>>,
    more: Seq<Seq<char>>,
    o: SshOptions,
)
    requires
        declares_target(ls),
    ensures
        first_target(ls + more, o) == first_target(ls, o),
    decreases ls.len(),
{
    assert((ls + more)[0] == ls[0]);
    if ssh_address(fields(ls[0])) is None {
        let rest = ls.drop_first();
        let i = choose|i: int| 0 <= i < ls.len() && #[trigger] ssh_address(fields(ls[i])) is Some;
        assert(rest[i - 1] == ls[i]);
        assert(ssh_address(fields(rest[i - 1])) is Some);
        assert((ls + more).drop_first() =~= rest + more);
        law_first_target_ignores_later_lines(rest, more, options_after(o, fields(ls[0])));
    }
}

/// Only the fields of the lines tell the target.
proof fn lemma_fields_tell_the_target(x: Seq<Seq<char>>, y: Seq<Seq<char>>, o: SshOptions)
    requires
        x.len() == y.len(),
        forall|i: int| 0 <= i < x.len() ==> fields(#[trigger] x[i]) == fields(y[i]),
    ensures
        first_target(x, o) == first_target(y, o),
    decreases x.len(),
{
    if x.len() > 0 {
        let (rest, others) = (x.drop_first(), y.drop_first());
        assert(fields(x[0]) == fields(y[0]));
        assert forall|i: int| 0 <= i < rest.len() implies fields(#[trigger] rest[i]) == fields(
            others[i],
        ) by {
            assert(rest[i] == x[i + 1] && others[i] == y[i + 1]);
        }
        lemma_fields_tell_the_target(rest, others, options_after(o, fields(x[0])));
    }
}

/// Whatever text is put below a configuration with an ssh target, its first
/// target stays the same.
pub proof fn law_first_target_ignores_later_text(
    conf: Seq<char>,
    more: Seq<char>,
    o: SshOptions,
)
    requires
        declares_target(lines(conf)),
    ensures
        first_target(lines(conf + seq!['\n'] + more), o) == first_target(lines(conf), o),
{
    let ls = lines(conf);
    let ended = lines(conf.push('\n'));
    assert(conf + seq!['\n'] + more =~= conf.push('\n') + more);
    lemma_lines_joined(conf, more);
    lemma_lines_ended(conf);
    let same = ended.take(ls.len() as int);
    let rest = ended.skip(ls.len() as int) + lines(more);
    assert(ended + lines(more) =~= same + rest);
    assert forall|i: int| 0 <= i < same.len() implies fields(#[trigger] same[i]) == fields(
        ls[i],
    ) by {
        assert(same[i] == ended[i]);
    }
    lemma_fields_tell_the_target(same, ls, o);
    let i = choose|i: int| 0 <= i < ls.len() && #[trigger] ssh_address(fields(ls[i])) is Some;
    assert(ssh_address(fields(same[i])) is Some);
    law_first_target_ignores_later_lines(same, rest, o);
}

/// A configuration without an ssh target line has no target.
pub proof fn law_no_target_without_declaration(ls: Seq<Seq<char>>, o: SshOptions)
    requires
        !declares_target(ls),
    ensures
        first_target(ls, o) is None,
    decreases ls.len(),
{
    if ls.len() > 0 {
        assert(ssh_address(fields(ls[0])) is None);
        let rest = ls.drop_first();
        assert forall|i: int| 0 <= i < rest.len() implies #[trigger] ssh_address(
            fields(rest[i]),
        ) is None by {
            assert(rest[i] == ls[i + 1]);
            assert(ssh_address(fields(ls[i + 1])) is None);
        }
        law_no_target_without_declaration(rest, options_after(o, fields(ls[0])));
    }
}

// ---------------------------------------------------------------------------
// What declares a target, said of the lines

/// Only a line whose first field is the word "target" declares a target, with
/// the address behind "ssh://" in its second field or else in its third.
pub proof fn law_only_target_lines_declare_targets(
    fs: Seq<Seq<char>>,
    address: Seq<char>,
    method: Seq<char>,
    more: Seq<Seq<char>>,
)
    requires
        forall|rest: Seq<char>| method != #[trigger] ("ssh://"@ + rest),
    ensures
        ssh_address(fs) is Some ==> fs.len() >= 2 && fs[0] == "target"@,
        ssh_address(seq!["target"@, "ssh://"@ + address] + more) == Some(address),
        ssh_address(seq!["target"@, method, "ssh://"@ + address] + more) == Some(address),
        ssh_address(seq!["target"@, method]) is None,
        more.len() > 0 && (forall|rest: Seq<char>| more[0] != #[trigger] ("ssh://"@ + rest))
            ==> ssh_address(seq!["target"@, method] + more) is None,
{
    let scheme = "ssh://"@;
    law_stripping_undoes_prefixing(address, scheme);
    law_stripping_undoes_prefixing(method, scheme);
    let direct = seq!["target"@, scheme + address] + more;
    assert(direct[0] == "target"@ && direct[1] == scheme + address);
    let named = seq!["target"@, method, scheme + address] + more;
    assert(named[0] == "target"@ && named[1] == method && named[2] == scheme + address);
    if scheme.is_prefix_of(method) {
        assert(method =~= scheme + method.skip(scheme.len() as int));
    }
    if more.len() > 0 {
        law_stripping_undoes_prefixing(more[0], scheme);
        let other = seq!["target"@, method] + more;
        assert(other[0] == "target"@ && other[1] == method && other[2] == more[0]);
        if scheme.is_prefix_of(more[0]) {
            assert(more[0] =~= scheme + more[0].skip(scheme.len() as int));
        }
    }
}

/// A line whose first field is neither "target" nor an ssh option changes
/// nothing, whatever else it says; nor does a blank one.
pub proof fn law_other_lines_are_passed_over(line: Seq<char>, ls: Seq<Seq<char>>, o: SshOptions)
    requires
        fields(line).len() > 0 ==> fields(line)[0] != "target"@ && fields(line)[0] != "ssh_user"@
            && fields(line)[0] != "ssh_identity"@ && fields(line)[0] != "ssh_port"@,
    ensures
        first_target(seq![line] + ls, o) == first_target(ls, o),
{
    let whole = seq![line] + ls;
    assert(whole[0] == line);
    assert(whole.drop_first() =~= ls);
}

/// A line that is commented out declares nothing: put before a configuration,
/// it leaves the target that is found unchanged.
pub proof fn law_comments_declare_nothing(line: Seq<char>, conf: Seq<char>, o: SshOptions)
    requires
        !line.contains('\n'),
        line.len() > 0 && line.last() != '\r',
        fields(line).len() > 0,
        fields(line)[0].len() > 0,
        fields(line)[0][0] == '#',
    ensures
        first_target(lines(line + seq!['\n'] + conf), o) == first_target(lines(conf), o),
{
    reveal_strlit("target");
    reveal_strlit("ssh_user");
    reveal_strlit("ssh_identity");
    reveal_strlit("ssh_port");
    law_lines_end_with_newlines(line, conf);
    law_other_lines_are_passed_over(line, lines(conf), o);
}

/// An option line sets its option for what follows, and nothing else; "no" and
/// "default" unset it.
pub proof fn law_options_are_in_effect_below(
    line: Seq<char>,
    value: Seq<char>,
    more: Seq<Seq<char>>,
    ls: Seq<Seq<char>>,
    o: SshOptions,
)
    ensures
        ({
            let set = if value == "no"@ || value == "default"@ {
                None
            } else {
                Some(value)
            };
            let found = first_target(seq![line] + ls, o);
            &&& fields(line) == seq!["ssh_user"@, value] + more ==> found == first_target(
                ls,
                SshOptions { user: set, identity: o.identity, port: o.port },
            )
            &&& fields(line) == seq!["ssh_identity"@, value] + more ==> found == first_target(
                ls,
                SshOptions { user: o.user, identity: set, port: o.port },
            )
            &&& fields(line) == seq!["ssh_port"@, value] + more ==> found == first_target(
                ls,
                SshOptions { user: o.user, identity: o.identity, port: set },
            )
        }),
        no_options().user is None,
        no_options().identity is None,
        no_options().port is None,
{
    reveal_strlit("target");
    reveal_strlit("ssh_user");
    reveal_strlit("ssh_identity");
    reveal_strlit("ssh_port");
    assert("target"@.len() == 6 && "ssh_user"@.len() == 8 && "ssh_identity"@.len() == 12);
    assert("ssh_port"@.len() == 8 && "ssh_port"@[4] == 'p' && "ssh_user"@[4] == 'u');
    let whole = seq![line] + ls;
    assert(whole[0] == line);
    assert(whole.drop_first() =~= ls);
    assert((seq!["ssh_user"@, value] + more)[0] == "ssh_user"@);
    assert((seq!["ssh_user"@, value] + more)[1] == value);
    assert((seq!["ssh_identity"@, value] + more)[0] == "ssh_identity"@);
    assert((seq!["ssh_identity"@, value] + more)[1] == value);
    assert((seq!["ssh_port"@, value] + more)[0] == "ssh_port"@);
    assert((seq!["ssh_port"@, value] + more)[1] == value);
}

/// The first target line gives the target: what stands before the first slash
/// of its address is the host, with or without a port, the rest is the path.
/// Without a slash, or without a host, there is no target.
pub proof fn law_first_target_line_decides(
    line: Seq<char>,
    address: Seq<char>,
    more: Seq<Seq<char>>,
    ls: Seq<Seq<char>>,
    o: SshOptions,
)
    requires
        fields(line) == seq!["target"@, "ssh://"@ + address] + more,
    ensures
        first_target(seq![line] + ls, o) == target_at(address, o),
        !address.contains('/') ==> target_at(address, o) is None,
{
    let whole = seq![line] + ls;
    assert(whole[0] == line);
    law_stripping_undoes_prefixing(address, "ssh://"@);
    let fs = seq!["target"@, "ssh://"@ + address] + more;
    assert(fs[0] == "target"@ && fs[1] == "ssh://"@ + address);
    if !address.contains('/') {
        lemma_not_split(address, '/');
    }
}

/// The options in effect go into the target, and a port in the address goes
/// before the option. `host` is a plain name: no slash, colon or bracket.
pub proof fn law_address_tells_host_port_and_path(
    host: Seq<char>,
    port: Seq<char>,
    path: Seq<char>,
    o: SshOptions,
)
    requires
        host.len() > 0,
        !host.contains('/'),
        !host.contains(':'),
        host[0] != '[',
        !port.contains('/'),
    ensures
        target_at(host + seq!['/'] + path, o) == Some(
            SshTargetView {
                host,
                port: o.port,
                path: seq!['/'] + path,
                user: o.user,
                identity: o.identity,
            },
        ),
        target_at(host + seq![':'] + port + seq!['/'] + path, o) == Some(
            SshTargetView {
                host,
                port: Some(port),
                path: seq!['/'] + path,
                user: o.user,
                identity: o.identity,
            },
        ),
        target_at(seq!['/'] + path, o) is None,
{
    lemma_split_before(host, '/', path);
    lemma_not_split(host, ':');
    lemma_no_bracket(host);
    let with_port = host + seq![':'] + port;
    assert forall|i: int| 0 <= i < with_port.len() implies with_port[i] != '/' by {
        if i < host.len() {
            assert(host.contains(host[i]));
        } else if i > host.len() {
            assert(port.contains(port[i - host.len() - 1]));
        }
    }
    lemma_split_before(with_port, '/', path);
    lemma_split_before(host, ':', port);
    lemma_no_bracket(with_port);
    lemma_split_before(Seq::empty(), '/', path);
    assert(Seq::<char>::empty() + seq!['/'] + path =~= seq!['/'] + path);
    lemma_not_split(Seq::empty(), ':');
    lemma_no_bracket(Seq::empty());
}

proof fn lemma_not_split(s: Seq<char>, c: char)
    requires
        !s.contains(c),
    ensures
        split_once(s, c) is None,
{
    law_split_is_at_the_first(s, c);
    if let Some((a, b)) = split_once(s, c) {
        assert(s[a.len() as int] == c);
    }
}

proof fn lemma_no_bracket(s: Seq<char>)
    requires
        s.len() == 0 || s[0] != '[',
    ensures
        strip_prefix(s, seq!['[']) is None,
{
    if seq!['['].is_prefix_of(s) {
        assert(s.take(1)[0] == seq!['['][0]);
    }
}

proof fn lemma_split_before(a: Seq<char>, c: char, b: Seq<char>)
    requires
        !a.contains(c),
    ensures
        split_once(a + seq![c] + b, c) == Some((a, b)),
{
    let whole = a + seq![c] + b;
    law_split_is_at_the_first(whole, c);
    assert(whole[a.len() as int] == c);
    assert(whole.contains(c));
    let (x, y) = split_once(whole, c)->0;
    if x.len() < a.len() {
        assert(whole[x.len() as int] == c);
        assert(a.contains(a[x.len() as int]));
    }
    if x.len() > a.len() {
        assert(x[a.len() as int] == whole[a.len() as int]);
        assert(x.contains(c));
    }
    assert(x =~= a);
    assert(y =~= b);
}

/// An address in brackets keeps its colons; the port comes behind them.
pub proof fn law_brackets_hold_the_host(
    host: Seq<char>,
    port: Seq<char>,
    path: Seq<char>,
    o: SshOptions,
)
    requires
        host.len() > 0,
        !host.contains('/'),
        !host.contains(']'),
        !port.contains('/'),
    ensures
        target_at(seq!['['] + host + seq![']', '/'] + path, o) == Some(
            SshTargetView {
                host,
                port: o.port,
                path: seq!['/'] + path,
                user: o.user,
                identity: o.identity,
            },
        ),
        target_at(seq!['['] + host + seq![']', ':'] + port + seq!['/'] + path, o) == Some(
            SshTargetView {
                host,
                port: Some(port),
                path: seq!['/'] + path,
                user: o.user,
                identity: o.identity,
            },
        ),
{
    let closed = seq!['['] + host + seq![']'];
    let with_port = seq!['['] + host + seq![']', ':'] + port;
    assert forall|i: int| 0 <= i < with_port.len() implies with_port[i] != '/' by {
        if 1 <= i < host.len() + 1 {
            assert(host.contains(host[i - 1]));
        } else if i > host.len() + 2 {
            assert(port.contains(port[i - host.len() - 3]));
        }
    }
    assert forall|i: int| 0 <= i < closed.len() implies closed[i] != '/' by {
        assert(closed[i] == with_port[i]);
    }
    lemma_split_before(closed, '/', path);
    lemma_split_before(with_port, '/', path);
    assert(closed + seq!['/'] + path =~= seq!['['] + host + seq![']', '/'] + path);
    law_stripping_undoes_prefixing(host + seq![']'], seq!['[']);
    assert(seq!['['] + (host + seq![']']) =~= closed);
    lemma_split_before(host, ']', Seq::empty());
    assert(host + seq![']'] + Seq::empty() =~= host + seq![']']);
    law_stripping_undoes_prefixing(host + seq![']', ':'] + port, seq!['[']);
    assert(seq!['['] + (host + seq![']', ':'] + port) =~= with_port);
    lemma_split_before(host, ']', seq![':'] + port);
    assert(host + seq![']'] + (seq![':'] + port) =~= host + seq![']', ':'] + port);
    law_stripping_undoes_prefixing(port, seq![':']);
    if seq![':'].is_prefix_of(Seq::<char>::empty()) {
        assert(false);
    }
}

/// ssh never asks and does not wait forever; it gets the port, the user and the
/// key of the target, each only if there is one, and last the host and the
/// command to run there.
pub proof fn law_ssh_is_told_where_and_what(target: SshTargetView)
    ensures
        ({
            let args = arguments_for(target);
            let n = args.len();
            &&& n >= 6
            &&& args.take(4) == seq!["-o"@, "ConnectTimeout=10"@, "-o"@, "BatchMode=yes"@]
            &&& args[n - 2] == target.host
            &&& args[n - 1] == list_command(target.path)
            &&& args.subrange(4, n - 2) == (match target.port {
                Some(port) => seq!["-p"@, port],
                None => Seq::empty(),
            }) + (match target.user {
                Some(user) => seq!["-l"@, user],
                None => Seq::empty(),
            }) + (match target.identity {
                Some(identity) => seq!["-i"@, identity],
                None => Seq::empty(),
            })
        }),
{
    let args = arguments_for(target);
    let n = args.len() as int;
    assert(args.take(4) =~= seq!["-o"@, "ConnectTimeout=10"@, "-o"@, "BatchMode=yes"@]);
    assert(args.subrange(4, n - 2) =~= flag_with("-p"@, target.port) + flag_with(
        "-l"@,
        target.user,
    ) + flag_with("-i"@, target.identity));
}

/// The command run on the target lists the subvolumes at the path, which the
/// shell there reads as one word.
pub proof fn law_target_is_asked_for_its_subvolumes(path: Seq<char>)
    ensures
        exists|word: Seq<char>|
            list_command(path) == #[trigger] ("sudo btrfs subvolume list -u -R "@ + word)
                && shell_word(word, false) == Some(path),
{
    let word = seq!['\''] + quoted(path) + seq!['\''];
    law_quoted_path_is_one_word(path);
    reveal_strlit("sudo btrfs subvolume list -u -R ");
    reveal_strlit("sudo btrfs subvolume list -u -R '");
    reveal_strlit("'");
    assert("sudo btrfs subvolume list -u -R '"@ =~= "sudo btrfs subvolume list -u -R "@ + seq![
        '\'',
    ]);
    assert("'"@ =~= seq!['\'']);
    assert(list_command(path) =~= "sudo btrfs subvolume list -u -R "@ + word);
}

/// The view of a target shows its fields.
pub proof fn law_view_of_a_target_shows_its_fields(target: SshTarget)
    ensures
        target@.host == target.host@,
        target@.port == text_of(target.port),
        target@.path == target.path@,
        target@.user == text_of(target.user),
        target@.identity == text_of(target.identity),
{
}

} // verus!
