//! The settings of the sections: `[supervisord]`, `[program:x]`,
//! `[eventlistener:x]` and the credentials of the control servers.
use crate::config::ini;
use crate::config::values;
use crate::config::values::AutoRestart;
use crate::number;
use crate::text;
use vstd::prelude::*;

verus! {

// ---------------------------------------------------------------------------
// Types
// ---------------------------------------------------------------------------

/// Where a process's stdout or stderr is written.
#[derive(Debug, PartialEq, Eq)]
pub enum LogTarget {
    /// `<childlogdir>/<name>-<stream>.log`.
    Auto,
    /// Nowhere: the stream is discarded.
    Discard,
    /// An explicit path.
    Path(String),
}

/// The mathematical content of a [`LogTarget`].
pub enum LogTargetModel {
    Auto,
    Discard,
    Path(Seq<char>),
}

impl View for LogTarget {
    type V = LogTargetModel;

    open spec fn view(&self) -> LogTargetModel {
        match self {
            LogTarget::Auto => LogTargetModel::Auto,
            LogTarget::Discard => LogTargetModel::Discard,
            LogTarget::Path(p) => LogTargetModel::Path(p@),
        }
    }
}

impl Clone for LogTarget {
    fn clone(&self) -> (r: Self)
        ensures
            r@ == self@,
    {
        match self {
            LogTarget::Auto => LogTarget::Auto,
            LogTarget::Discard => LogTarget::Discard,
            LogTarget::Path(p) => LogTarget::Path(p.clone()),
        }
    }
}

/// The configuration of one supervised process.
#[derive(Debug, PartialEq)]
pub struct ProgramConfig {
    pub name: String,
    /// The section name, which all instances of a program share.
    pub program: String,
    /// The group this instance belongs to (`program` unless a group says otherwise).
    pub group: String,
    pub command: String,
    pub directory: Option<String>,
    pub autostart: bool,
    pub autorestart: AutoRestart,
    pub startsecs: u64,
    pub startretries: u32,
    pub exitcodes: Vec<i32>,
    pub stopsignal: i32,
    pub stopwaitsecs: u64,
    pub environment: Vec<(String, String)>,
    pub user: Option<String>,
    pub umask: Option<u32>,
    pub priority: i32,
    pub redirect_stderr: bool,
    pub stdout_logfile: LogTarget,
    pub stdout_logfile_maxbytes: u64,
    pub stdout_logfile_backups: u32,
    pub stderr_logfile: LogTarget,
    pub stderr_logfile_maxbytes: u64,
    pub stderr_logfile_backups: u32,
    /// True for `[eventlistener:x]` sections: the process speaks the event
    /// notification protocol on its stdin and stdout.
    pub is_listener: bool,
    /// The event type names this listener subscribes to (abstract or concrete).
    pub events: Vec<String>,
    /// How many events a listener's buffer holds.
    pub buffer_size: usize,
}

/// The mathematical content of a [`ProgramConfig`].
#[verifier::ext_equal]
pub struct ProgramModel {
    pub name: Seq<char>,
    pub program: Seq<char>,
    pub group: Seq<char>,
    pub command: Seq<char>,
    pub directory: Option<Seq<char>>,
    pub autostart: bool,
    pub autorestart: AutoRestart,
    pub startsecs: u64,
    pub startretries: u32,
    pub exitcodes: Seq<i32>,
    pub stopsignal: i32,
    pub stopwaitsecs: u64,
    pub environment: Seq<(Seq<char>, Seq<char>)>,
    pub user: Option<Seq<char>>,
    pub umask: Option<u32>,
    pub priority: i32,
    pub redirect_stderr: bool,
    pub stdout_logfile: LogTargetModel,
    pub stdout_logfile_maxbytes: u64,
    pub stdout_logfile_backups: u32,
    pub stderr_logfile: LogTargetModel,
    pub stderr_logfile_maxbytes: u64,
    pub stderr_logfile_backups: u32,
    pub is_listener: bool,
    pub events: Seq<Seq<char>>,
    pub buffer_size: usize,
}

impl View for ProgramConfig {
    type V = ProgramModel;

    open spec fn view(&self) -> ProgramModel {
        ProgramModel {
            name: self.name@,
            program: self.program@,
            group: self.group@,
            command: self.command@,
            directory: text::opt_text(self.directory),
            autostart: self.autostart,
            autorestart: self.autorestart,
            startsecs: self.startsecs,
            startretries: self.startretries,
            exitcodes: self.exitcodes@,
            stopsignal: self.stopsignal,
            stopwaitsecs: self.stopwaitsecs,
            environment: text::text_pairs(self.environment@),
            user: text::opt_text(self.user),
            umask: self.umask,
            priority: self.priority,
            redirect_stderr: self.redirect_stderr,
            stdout_logfile: self.stdout_logfile@,
            stdout_logfile_maxbytes: self.stdout_logfile_maxbytes,
            stdout_logfile_backups: self.stdout_logfile_backups,
            stderr_logfile: self.stderr_logfile@,
            stderr_logfile_maxbytes: self.stderr_logfile_maxbytes,
            stderr_logfile_backups: self.stderr_logfile_backups,
            is_listener: self.is_listener,
            events: text::texts(self.events@),
            buffer_size: self.buffer_size,
        }
    }
}

/// The contents of a list of program configurations.
pub open spec fn program_list(v: Seq<ProgramConfig>) -> Seq<ProgramModel> {
    v.map_values(|p: ProgramConfig| p@)
}

impl Clone for ProgramConfig {
    fn clone(&self) -> (r: Self)
        ensures
            r@ == self@,
    {
        ProgramConfig {
            name: self.name.clone(),
            program: self.program.clone(),
            group: self.group.clone(),
            command: self.command.clone(),
            directory: text::copy_opt(&self.directory),
            autostart: self.autostart,
            autorestart: self.autorestart,
            startsecs: self.startsecs,
            startretries: self.startretries,
            exitcodes: copy_codes(&self.exitcodes),
            stopsignal: self.stopsignal,
            stopwaitsecs: self.stopwaitsecs,
            environment: text::copy_pairs(&self.environment),
            user: text::copy_opt(&self.user),
            umask: self.umask,
            priority: self.priority,
            redirect_stderr: self.redirect_stderr,
            stdout_logfile: self.stdout_logfile.clone(),
            stdout_logfile_maxbytes: self.stdout_logfile_maxbytes,
            stdout_logfile_backups: self.stdout_logfile_backups,
            stderr_logfile: self.stderr_logfile.clone(),
            stderr_logfile_maxbytes: self.stderr_logfile_maxbytes,
            stderr_logfile_backups: self.stderr_logfile_backups,
            is_listener: self.is_listener,
            events: text::copy_texts(&self.events),
            buffer_size: self.buffer_size,
        }
    }
}

/// Whether two optional numbers are the same.
fn same_number(a: Option<u32>, b: Option<u32>) -> (r: bool)
    ensures
        r == (a == b),
{
    match (a, b) {
        (Some(x), Some(y)) => x == y,
        (None, None) => true,
        _ => false,
    }
}

/// Whether two lists of exit codes are the same.
fn same_codes(a: &Vec<i32>, b: &Vec<i32>) -> (r: bool)
    ensures
        r == (a@ == b@),
{
    if a.len() != b.len() {
        return false;
    }
    let mut i: usize = 0;
    while i < a.len()
        invariant
            i <= a@.len(),
            a@.len() == b@.len(),
            forall|k: int| 0 <= k < i ==> #[trigger] a@[k] == b@[k],
        decreases a@.len() - i,
    {
        if a[i] != b[i] {
            return false;
        }
        i = i + 1;
    }
    proof {
        assert(a@ =~= b@);
    }
    true
}

impl LogTarget {
    /// Whether two streams go to the same place.
    pub fn same(&self, other: &LogTarget) -> (r: bool)
        ensures
            r == (self@ == other@),
    {
        match (self, other) {
            (LogTarget::Auto, LogTarget::Auto) => true,
            (LogTarget::Discard, LogTarget::Discard) => true,
            (LogTarget::Path(p), LogTarget::Path(q)) => text::same(p.as_str(), q.as_str()),
            _ => false,
        }
    }
}

impl ProgramConfig {
    /// Whether two configurations are the same in every setting.
    pub fn same(&self, other: &ProgramConfig) -> (r: bool)
        ensures
            r == (self@ == other@),
    {
        let r = text::same(self.name.as_str(), other.name.as_str()) && text::same(
            self.program.as_str(),
            other.program.as_str(),
        ) && text::same(self.group.as_str(), other.group.as_str()) && text::same(
            self.command.as_str(),
            other.command.as_str(),
        ) && text::same_opt(&self.directory, &other.directory) && self.autostart
            == other.autostart && self.autorestart == other.autorestart && self.startsecs
            == other.startsecs && self.startretries == other.startretries && same_codes(
            &self.exitcodes,
            &other.exitcodes,
        ) && self.stopsignal == other.stopsignal && self.stopwaitsecs == other.stopwaitsecs
            && text::same_pairs(&self.environment, &other.environment) && text::same_opt(
            &self.user,
            &other.user,
        ) && same_number(self.umask, other.umask) && self.priority == other.priority
            && self.redirect_stderr == other.redirect_stderr && self.stdout_logfile.same(
            &other.stdout_logfile,
        ) && self.stdout_logfile_maxbytes == other.stdout_logfile_maxbytes
            && self.stdout_logfile_backups == other.stdout_logfile_backups
            && self.stderr_logfile.same(&other.stderr_logfile) && self.stderr_logfile_maxbytes
            == other.stderr_logfile_maxbytes && self.stderr_logfile_backups
            == other.stderr_logfile_backups && self.is_listener == other.is_listener
            && text::same_texts(&self.events, &other.events) && self.buffer_size
            == other.buffer_size;
        proof {
            if r {
                assert(self@ =~= other@);
            }
        }
        r
    }
}

/// A copy of a list of program configurations.
pub fn copy_programs(v: &Vec<ProgramConfig>) -> (r: Vec<ProgramConfig>)
    ensures
        program_list(r@) == program_list(v@),
{
    let mut r: Vec<ProgramConfig> = Vec::new();
    let mut i: usize = 0;
    while i < v.len()
        invariant
            i <= v@.len(),
            r@.len() == i,
            forall|k: int| 0 <= k < i ==> (#[trigger] r@[k])@ == v@[k]@,
        decreases v@.len() - i,
    {
        r.push(v[i].clone());
        i = i + 1;
    }
    proof {
        assert(program_list(r@) =~= program_list(v@));
    }
    r
}

fn copy_codes(v: &Vec<i32>) -> (r: Vec<i32>)
    ensures
        r@ == v@,
{
    let mut r: Vec<i32> = Vec::new();
    let mut i: usize = 0;
    while i < v.len()
        invariant
            i <= v@.len(),
            r@ == v@.take(i as int),
        decreases v@.len() - i,
    {
        r.push(v[i]);
        proof {
            assert(v@.take(i as int + 1) =~= v@.take(i as int).push(v@[i as int]));
        }
        i = i + 1;
    }
    proof {
        assert(v@.take(v@.len() as int) =~= v@);
    }
    r
}

/// The configuration of the daemon itself.
#[derive(Debug)]
pub struct SupervisordConfig {
    pub logfile: String,
    pub logfile_maxbytes: u64,
    pub logfile_backups: u32,
    pub loglevel: String,
    pub pidfile: String,
    pub nodaemon: bool,
    pub silent: bool,
    pub childlogdir: String,
    pub directory: Option<String>,
    pub identifier: String,
    pub umask: Option<u32>,
    pub environment: Vec<(String, String)>,
}

/// The mathematical content of a [`SupervisordConfig`].
#[verifier::ext_equal]
pub struct SupervisordModel {
    pub logfile: Seq<char>,
    pub logfile_maxbytes: u64,
    pub logfile_backups: u32,
    pub loglevel: Seq<char>,
    pub pidfile: Seq<char>,
    pub nodaemon: bool,
    pub silent: bool,
    pub childlogdir: Seq<char>,
    pub directory: Option<Seq<char>>,
    pub identifier: Seq<char>,
    pub umask: Option<u32>,
    pub environment: Seq<(Seq<char>, Seq<char>)>,
}

impl View for SupervisordConfig {
    type V = SupervisordModel;

    open spec fn view(&self) -> SupervisordModel {
        SupervisordModel {
            logfile: self.logfile@,
            logfile_maxbytes: self.logfile_maxbytes,
            logfile_backups: self.logfile_backups,
            loglevel: self.loglevel@,
            pidfile: self.pidfile@,
            nodaemon: self.nodaemon,
            silent: self.silent,
            childlogdir: self.childlogdir@,
            directory: text::opt_text(self.directory),
            identifier: self.identifier@,
            umask: self.umask,
            environment: text::text_pairs(self.environment@),
        }
    }
}

/// The path of the control socket where none is configured.
pub const DEFAULT_SOCKET: &'static str = "/tmp/supervisor.sock";

/// Optional HTTP Basic auth credentials for a control server.
#[derive(Debug)]
pub struct HttpAuth {
    pub username: Option<String>,
    pub password: Option<String>,
}

/// The mathematical content of an [`HttpAuth`].
pub struct AuthModel {
    pub username: Option<Seq<char>>,
    pub password: Option<Seq<char>>,
}

impl View for HttpAuth {
    type V = AuthModel;

    open spec fn view(&self) -> AuthModel {
        AuthModel {
            username: text::opt_text(self.username),
            password: text::opt_text(self.password),
        }
    }
}

impl Default for HttpAuth {
    fn default() -> (r: Self)
        ensures
            r@ == (AuthModel { username: None, password: None }),
    {
        HttpAuth { username: None, password: None }
    }
}

impl HttpAuth {
    /// Whether requests must carry credentials.
    pub fn is_set(&self) -> (r: bool)
        ensures
            r == (self@.username is Some),
    {
        self.username.is_some()
    }
}

// ---------------------------------------------------------------------------
// Items
// ---------------------------------------------------------------------------

/// The value of a key as a number of at most `max`.
pub open spec fn number_item(
    items: Seq<(Seq<char>, Seq<char>)>,
    key: Seq<char>,
    max: nat,
    default: nat,
    error: Seq<char>,
) -> Result<nat, Seq<char>> {
    match ini::value_of(items, key) {
        None => Ok(default),
        Some(v) => match number::unsigned_upto(v, 10, max) {
            Some(n) => Ok(n),
            None => Err(error),
        },
    }
}

pub(crate) fn read_number(items: &Vec<(String, String)>, key: &str, max: u64, default: u64, error: &str) -> (r:
    Result<u64, String>)
    ensures
        match number_item(
            text::text_pairs(items@),
            key@,
            max as nat,
            default as nat,
            error@,
        ) {
            Ok(n) => r matches Ok(v) && v == n,
            Err(e) => r matches Err(m) && m@ == e,
        },
        r matches Ok(v) ==> v <= max || v == default,
{
    match ini::lookup(items.as_slice(), key) {
        None => Ok(default),
        Some(v) => {
            let c = text::chars_of(v);
            match number::parse_unsigned(c.as_slice(), 10, max) {
                Some(n) => Ok(n),
                None => Err(error.to_string()),
            }
        },
    }
}

/// The value of a key as a priority.
pub open spec fn priority_item(
    items: Seq<(Seq<char>, Seq<char>)>,
    default: i32,
    error: Seq<char>,
) -> Result<i32, Seq<char>> {
    match ini::value_of(items, "priority"@) {
        None => Ok(default),
        Some(v) => match number::signed_within(v, i32::MIN as int, i32::MAX as int) {
            Some(n) => Ok(n as i32),
            None => Err(error),
        },
    }
}

pub(crate) fn read_priority(items: &Vec<(String, String)>, default: i32, error: &str) -> (r: Result<
    i32,
    String,
>)
    ensures
        match priority_item(text::text_pairs(items@), default, error@) {
            Ok(n) => r matches Ok(v) && v == n,
            Err(e) => r matches Err(m) && m@ == e,
        },
{
    match ini::lookup(items.as_slice(), "priority") {
        None => Ok(default),
        Some(v) => {
            let c = text::chars_of(v);
            match number::parse_signed(c.as_slice(), i32::MIN as i64, i32::MAX as i64) {
                Some(n) => Ok(n as i32),
                None => Err(error.to_string()),
            }
        },
    }
}

/// The value of a key as a boolean.
pub open spec fn bool_item(
    items: Seq<(Seq<char>, Seq<char>)>,
    key: Seq<char>,
    default: bool,
) -> Result<bool, Seq<char>> {
    match ini::value_of(items, key) {
        None => Ok(default),
        Some(v) => values::bool_of(v),
    }
}

pub(crate) fn read_bool(items: &Vec<(String, String)>, key: &str, default: bool) -> (r: Result<bool, String>)
    ensures
        match bool_item(text::text_pairs(items@), key@, default) {
            Ok(n) => r matches Ok(v) && v == n,
            Err(e) => r matches Err(m) && m@ == e,
        },
{
    match ini::lookup(items.as_slice(), key) {
        None => Ok(default),
        Some(v) => values::parse_bool(v),
    }
}

/// The value of a key as a byte size.
pub open spec fn size_item(
    items: Seq<(Seq<char>, Seq<char>)>,
    key: Seq<char>,
    default: nat,
) -> Result<nat, Seq<char>> {
    match ini::value_of(items, key) {
        None => Ok(default),
        Some(v) => match values::byte_size(v) {
            Some(n) => Ok(n),
            None => Err(values::byte_size_error(v)),
        },
    }
}

pub(crate) fn read_size(items: &Vec<(String, String)>, key: &str, default: u64) -> (r: Result<u64, String>)
    ensures
        match size_item(text::text_pairs(items@), key@, default as nat) {
            Ok(n) => r matches Ok(v) && v == n,
            Err(e) => r matches Err(m) && m@ == e,
        },
{
    match ini::lookup(items.as_slice(), key) {
        None => Ok(default),
        Some(v) => values::parse_byte_size(v),
    }
}

/// The value of `umask`.
pub open spec fn umask_item(items: Seq<(Seq<char>, Seq<char>)>) -> Result<Option<u32>, Seq<char>> {
    match ini::value_of(items, "umask"@) {
        None => Ok(None),
        Some(v) => match values::umask_of(v) {
            Some(n) => Ok(Some(n as u32)),
            None => Err("invalid umask"@),
        },
    }
}

pub(crate) fn read_umask(items: &Vec<(String, String)>) -> (r: Result<Option<u32>, String>)
    ensures
        match umask_item(text::text_pairs(items@)) {
            Ok(n) => r matches Ok(v) && v == n,
            Err(e) => r matches Err(m) && m@ == e,
        },
{
    match ini::lookup(items.as_slice(), "umask") {
        None => Ok(None),
        Some(v) => match values::parse_umask(v) {
            Ok(n) => Ok(Some(n)),
            Err(e) => Err(e),
        },
    }
}

/// The value of a key, or a default.
pub open spec fn text_item(
    items: Seq<(Seq<char>, Seq<char>)>,
    key: Seq<char>,
    default: Seq<char>,
) -> Seq<char> {
    match ini::value_of(items, key) {
        None => default,
        Some(v) => v,
    }
}

pub(crate) fn read_text(items: &Vec<(String, String)>, key: &str, default: &str) -> (r: String)
    ensures
        r@ == text_item(text::text_pairs(items@), key@, default@),
{
    match ini::lookup(items.as_slice(), key) {
        None => default.to_string(),
        Some(v) => v.to_string(),
    }
}

pub(crate) fn read_opt(items: &Vec<(String, String)>, key: &str) -> (r: Option<String>)
    ensures
        text::opt_text(r) == ini::value_of(text::text_pairs(items@), key@),
{
    match ini::lookup(items.as_slice(), key) {
        None => None,
        Some(v) => Some(v.to_string()),
    }
}

/// The variables that `environment` sets.
pub open spec fn environment_item(items: Seq<(Seq<char>, Seq<char>)>) -> Seq<
    (Seq<char>, Seq<char>),
> {
    match ini::value_of(items, "environment"@) {
        None => Seq::empty(),
        Some(v) => values::environment_of(v),
    }
}

pub(crate) fn read_environment(items: &Vec<(String, String)>) -> (r: Vec<(String, String)>)
    ensures
        text::text_pairs(r@) == environment_item(text::text_pairs(items@)),
{
    match ini::lookup(items.as_slice(), "environment") {
        None => {
            let r: Vec<(String, String)> = Vec::new();
            proof {
                assert(text::text_pairs(r@) =~= Seq::<(Seq<char>, Seq<char>)>::empty());
            }
            r
        },
        Some(v) => values::parse_environment(v),
    }
}

/// The credentials of a control server's section.
pub open spec fn auth_items(items: Seq<(Seq<char>, Seq<char>)>) -> AuthModel {
    AuthModel {
        username: ini::value_of(items, "username"@),
        password: ini::value_of(items, "password"@),
    }
}

pub(crate) fn read_auth(items: &Vec<(String, String)>) -> (r: HttpAuth)
    ensures
        r@ == auth_items(text::text_pairs(items@)),
{
    HttpAuth { username: read_opt(items, "username"), password: read_opt(items, "password") }
}

/// The first of two errors.
pub open spec fn first_error(a: Option<Seq<char>>, b: Option<Seq<char>>) -> Option<Seq<char>> {
    if a is Some {
        a
    } else {
        b
    }
}

/// The error of a result.
pub open spec fn error_of<T>(r: Result<T, Seq<char>>) -> Option<Seq<char>> {
    match r {
        Ok(_) => None,
        Err(e) => Some(e),
    }
}

// ---------------------------------------------------------------------------
// [supervisord]
// ---------------------------------------------------------------------------

/// What a log file's size is limited to unless the configuration says otherwise.
pub const DEFAULT_MAXBYTES: u64 = 52428800;

/// The daemon's configuration when there is no `[supervisord]` section.
pub open spec fn default_supervisord(tmpdir: Seq<char>) -> SupervisordModel {
    SupervisordModel {
        logfile: "supervisord.log"@,
        logfile_maxbytes: DEFAULT_MAXBYTES,
        logfile_backups: 10,
        loglevel: "info"@,
        pidfile: "supervisord.pid"@,
        nodaemon: false,
        silent: false,
        childlogdir: tmpdir,
        directory: None,
        identifier: "supervisor"@,
        umask: None,
        environment: Seq::empty(),
    }
}

/// The directory for temporary files: what `TMPDIR` says, else `/tmp`.
pub fn default_tmpdir(var: Option<String>) -> (r: String)
    ensures
        r@ == (match var {
            Some(v) => v@,
            None => "/tmp"@,
        }),
{
    match var {
        Some(v) => v,
        None => "/tmp".to_string(),
    }
}

impl SupervisordConfig {
    /// The configuration when there is no `[supervisord]` section; the logs of
    /// the processes go to `tmpdir`.
    pub fn default_in(tmpdir: &str) -> (r: Self)
        ensures
            r@ == default_supervisord(tmpdir@),
    {
        let environment: Vec<(String, String)> = Vec::new();
        proof {
            assert(text::text_pairs(environment@) =~= Seq::<(Seq<char>, Seq<char>)>::empty());
        }
        SupervisordConfig {
            logfile: "supervisord.log".to_string(),
            logfile_maxbytes: DEFAULT_MAXBYTES,
            logfile_backups: 10,
            loglevel: "info".to_string(),
            pidfile: "supervisord.pid".to_string(),
            nodaemon: false,
            silent: false,
            childlogdir: tmpdir.to_string(),
            directory: None,
            identifier: "supervisor".to_string(),
            umask: None,
            environment,
        }
    }
}

/// What is wrong with a `[supervisord]` section.
pub open spec fn supervisord_error(items: Seq<(Seq<char>, Seq<char>)>) -> Option<Seq<char>> {
    first_error(
        error_of(size_item(items, "logfile_maxbytes"@, DEFAULT_MAXBYTES as nat)),
        first_error(
            error_of(
                number_item(
                    items,
                    "logfile_backups"@,
                    u32::MAX as nat,
                    10,
                    "invalid logfile_backups"@,
                ),
            ),
            first_error(
                error_of(bool_item(items, "nodaemon"@, false)),
                first_error(
                    error_of(bool_item(items, "silent"@, false)),
                    error_of(umask_item(items)),
                ),
            ),
        ),
    )
}

/// The daemon's configuration that a `[supervisord]` section gives.
pub open spec fn supervisord_of(items: Seq<(Seq<char>, Seq<char>)>, tmpdir: Seq<char>) -> Result<
    SupervisordModel,
    Seq<char>,
> {
    match supervisord_error(items) {
        Some(e) => Err(e),
        None => Ok(
            SupervisordModel {
                logfile: text_item(items, "logfile"@, "supervisord.log"@),
                logfile_maxbytes: size_item(
                    items,
                    "logfile_maxbytes"@,
                    DEFAULT_MAXBYTES as nat,
                )->Ok_0 as u64,
                logfile_backups: number_item(
                    items,
                    "logfile_backups"@,
                    u32::MAX as nat,
                    10,
                    "invalid logfile_backups"@,
                )->Ok_0 as u32,
                loglevel: text_item(items, "loglevel"@, "info"@),
                pidfile: text_item(items, "pidfile"@, "supervisord.pid"@),
                nodaemon: bool_item(items, "nodaemon"@, false)->Ok_0,
                silent: bool_item(items, "silent"@, false)->Ok_0,
                childlogdir: text_item(items, "childlogdir"@, tmpdir),
                directory: ini::value_of(items, "directory"@),
                identifier: text_item(items, "identifier"@, "supervisor"@),
                umask: umask_item(items)->Ok_0,
                environment: environment_item(items),
            },
        ),
    }
}

/// Reads a `[supervisord]` section.
pub fn parse_supervisord(items: &Vec<(String, String)>, tmpdir: &str) -> (r: Result<
    SupervisordConfig,
    String,
>)
    ensures
        match supervisord_of(text::text_pairs(items@), tmpdir@) {
            Ok(m) => r matches Ok(c) && c@ == m,
            Err(e) => r matches Err(m) && m@ == e,
        },
{
    let logfile_maxbytes = read_size(items, "logfile_maxbytes", DEFAULT_MAXBYTES)?;
    let logfile_backups = read_number(
        items,
        "logfile_backups",
        u32::MAX as u64,
        10,
        "invalid logfile_backups",
    )?;
    let nodaemon = read_bool(items, "nodaemon", false)?;
    let silent = read_bool(items, "silent", false)?;
    let umask = read_umask(items)?;
    Ok(
        SupervisordConfig {
            logfile: read_text(items, "logfile", "supervisord.log"),
            logfile_maxbytes,
            logfile_backups: logfile_backups as u32,
            loglevel: read_text(items, "loglevel", "info"),
            pidfile: read_text(items, "pidfile", "supervisord.pid"),
            nodaemon,
            silent,
            childlogdir: read_text(items, "childlogdir", tmpdir),
            directory: read_opt(items, "directory"),
            identifier: read_text(items, "identifier", "supervisor"),
            umask,
            environment: read_environment(items),
        },
    )
}

} // verus!
