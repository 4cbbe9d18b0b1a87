//! The command line: its commands, the daemon request each one sends, and
//! the lines it prints.
use vstd::prelude::*;

use crate::config::Config;
use crate::control::ControlRequest;
use crate::text::{append_chars, chars_of, string_of};

verus! {

/// The command line of the program.
pub struct Cli {
    pub command: Command,
}

/// A command. `config` is the path of the configuration file.
pub enum Command {
    /// Runs the daemon in the foreground (control socket and web console).
    Serve { config: String },
    /// Prints the web console address.
    Web { config: String },
    /// Shows the daemon status.
    Status { json: bool, config: String },
    /// Manages monitoring sources.
    Sources { action: SourcesAction },
    /// Checks a source now.
    Check { id: String, config: String },
    /// Shows a change event.
    Diff { event_id: i64, config: String },
    /// Sends a test notification.
    NotifyTest { chat_id: Option<String>, config: String },
    /// Shows the change history of a source.
    History { id: Option<String>, config: String },
    /// Shows the global settings.
    Settings { config: String },
    /// Creates a full backup.
    Backup { config: String },
    /// Lists the backups.
    Backups { config: String },
    /// Restores a backup by name (daemon stopped).
    Restore { name: String, config: String },
}

/// A `sources` sub-command.
pub enum SourcesAction {
    /// Adds the sources of a YAML file (daemon running).
    Add { file: String, config: String },
    /// Lists the sources.
    List { config: String },
}

/// The configuration file a command reads.
pub fn config_path(cmd: &Command) -> (r: &String)
    ensures
        r == match cmd {
            Command::Serve { config } => config,
            Command::Web { config } => config,
            Command::Status { config, .. } => config,
            Command::Sources { action } => match action {
                SourcesAction::Add { config, .. } => config,
                SourcesAction::List { config } => config,
            },
            Command::Check { config, .. } => config,
            Command::Diff { config, .. } => config,
            Command::NotifyTest { config, .. } => config,
            Command::History { config, .. } => config,
            Command::Settings { config } => config,
            Command::Backup { config } => config,
            Command::Backups { config } => config,
            Command::Restore { config, .. } => config,
        },
{
    match cmd {
        Command::Serve { config } => config,
        Command::Web { config } => config,
        Command::Status { config, .. } => config,
        Command::Sources { action } => match action {
            SourcesAction::Add { config, .. } => config,
            SourcesAction::List { config } => config,
        },
        Command::Check { config, .. } => config,
        Command::Diff { config, .. } => config,
        Command::NotifyTest { config, .. } => config,
        Command::History { config, .. } => config,
        Command::Settings { config } => config,
        Command::Backup { config } => config,
        Command::Backups { config } => config,
        Command::Restore { config, .. } => config,
    }
}

/// The single daemon request of a command, `None` for the commands that run
/// locally or send one request per source.
pub fn daemon_request(cmd: &Command) -> (r: Option<ControlRequest>)
    ensures
        match cmd {
            Command::Status { .. } => r matches Some(ControlRequest::Status),
            Command::Sources { action } => match action {
                SourcesAction::List { .. } => r matches Some(ControlRequest::ListSources),
                SourcesAction::Add { .. } => r is None,
            },
            Command::Check { id, .. } => r matches Some(ControlRequest::Check { source_id })
                && source_id == id,
            Command::Diff { event_id, .. } => r matches Some(ControlRequest::Diff { event_id: e })
                && e == event_id,
            Command::NotifyTest { chat_id, .. } => r matches Some(ControlRequest::NotifyTest { chat_id: c })
                && c == chat_id,
            Command::History { id, .. } => r matches Some(ControlRequest::History { source_id, limit })
                && source_id == id && limit == Some(20usize),
            Command::Settings { .. } => r matches Some(ControlRequest::GetSettings),
            Command::Backup { .. } => r matches Some(ControlRequest::Backup),
            _ => r is None,
        },
{
    match cmd {
        Command::Status { .. } => Some(ControlRequest::Status),
        Command::Sources { action } => match action {
            SourcesAction::List { .. } => Some(ControlRequest::ListSources),
            SourcesAction::Add { .. } => None,
        },
        Command::Check { id, .. } => Some(ControlRequest::Check { source_id: id.clone() }),
        Command::Diff { event_id, .. } => Some(ControlRequest::Diff { event_id: *event_id }),
        Command::NotifyTest { chat_id, .. } => Some(
            ControlRequest::NotifyTest { chat_id: crate::config::clone_opt_string(chat_id) },
        ),
        Command::History { id, .. } => Some(
            ControlRequest::History { source_id: crate::config::clone_opt_string(id), limit: Some(20) },
        ),
        Command::Settings { .. } => Some(ControlRequest::GetSettings),
        Command::Backup { .. } => Some(ControlRequest::Backup),
        _ => None,
    }
}

/// Whether a sources file holds a YAML list (its first non-blank character is
/// `-`) rather than one source.
pub fn is_yaml_list(text: &str) -> (r: bool)
    ensures
        r == (crate::text::trim_start(text@).len() > 0 && crate::text::trim_start(text@)[0] == '-'),
{
    let c = chars_of(text);
    let mut i: usize = 0;
    proof {
        assert(c@.skip(0) =~= c@);
    }
    while i < c.len() && crate::text::char_is_ws(c[i])
        invariant
            i <= c.len(),
            crate::text::trim_start(c@) == crate::text::trim_start(c@.skip(i as int)),
        decreases c.len() - i,
    {
        proof {
            assert(c@.skip(i as int).drop_first() =~= c@.skip(i + 1));
        }
        i += 1;
    }
    proof {
        if i < c.len() {
            assert(c@.skip(i as int)[0] == c@[i as int]);
        } else {
            assert(c@.skip(i as int) =~= Seq::<char>::empty());
        }
    }
    i < c.len() && c[i] == '-'
}

/// A text padded with spaces on the right to at least `width` characters.
pub open spec fn pad_right(s: Seq<char>, width: int) -> Seq<char> {
    if s.len() >= width {
        s
    } else {
        s + Seq::new((width - s.len()) as nat, |i: int| ' ')
    }
}

/// One line of the source list: the id padded to 24 characters, `enabled` or
/// `disabled`, and the URL.
pub fn source_line(id: &str, enabled: bool, url: &str) -> (r: String)
    ensures
        r@ == pad_right(id@, 24) + " "@ + (if enabled { "enabled"@ } else { "disabled"@ }) + " "@
            + url@,
{
    let mut out = chars_of(id);
    let ghost base = out@;
    while out.len() < 24
        invariant
            base == id@,
            out@ == base + Seq::new((out@.len() - base.len()) as nat, |i: int| ' '),
            out@.len() >= base.len(),
            out@.len() == base.len() || out@.len() <= 24,
        decreases 24 - out.len(),
    {
        let ghost before = out@;
        out.push(' ');
        proof {
            assert(out@ =~= base + Seq::new((out@.len() - base.len()) as nat, |i: int| ' '));
        }
    }
    proof {
        if base.len() >= 24 {
            assert(out@.len() == base.len());
            assert(out@ =~= base);
        } else {
            assert(out@.len() == 24);
        }
        assert(out@ =~= pad_right(id@, 24));
    }
    let sp = chars_of(" ");
    append_chars(&mut out, &sp);
    let word = chars_of(if enabled { "enabled" } else { "disabled" });
    append_chars(&mut out, &word);
    append_chars(&mut out, &sp);
    let u = chars_of(url);
    append_chars(&mut out, &u);
    string_of(&out)
}

/// The lines of the `web` command: the console address, its files, and how
/// to serve it.
pub fn web_console_lines(cfg: &Config, config: &str) -> (r: Vec<String>)
    ensures
        r@.len() == 3,
        r@[0]@ == "ReadingSteiner web console: http://"@ + (if cfg.web.listen@.len() == 0 {
            "127.0.0.1:8901"@
        } else {
            cfg.web.listen@
        }),
        r@[1]@ == "  static dir: "@ + (if cfg.web.static_dir@.len() == 0 {
            "web/dist"@
        } else {
            cfg.web.static_dir@
        }),
        r@[2]@ == "  hint: start daemon with `reading-steiner serve --config "@ + config@
            + "` to serve it"@,
{
    let addr = cfg.web.effective_listen();
    let dir = cfg.web.static_dir();
    let mut a = chars_of("ReadingSteiner web console: http://");
    let ac = chars_of(addr.as_str());
    append_chars(&mut a, &ac);
    let mut b = chars_of("  static dir: ");
    let bc = chars_of(dir.as_str());
    append_chars(&mut b, &bc);
    let mut c = chars_of("  hint: start daemon with `reading-steiner serve --config ");
    let cc = chars_of(config);
    append_chars(&mut c, &cc);
    let tail = chars_of("` to serve it");
    append_chars(&mut c, &tail);
    let mut out: Vec<String> = Vec::new();
    out.push(string_of(&a));
    out.push(string_of(&b));
    out.push(string_of(&c));
    out
}

/// The directory restored by `restore`: the named backup in the state
/// directory.
pub fn restore_dir(cfg: &Config, name: &str) -> (r: String)
    ensures
        r@ == crate::backup::backup_dir_of(cfg.state_dir@, name@),
{
    crate::backup::backup_dir(cfg.state_dir.as_str(), name)
}

} // verus!
