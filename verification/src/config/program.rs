//! `[program:x]` and `[eventlistener:x]` sections.
use crate::config::ini;
use crate::config::settings;
use crate::config::settings::LogTarget;
use crate::config::settings::LogTargetModel;
use crate::config::settings::ProgramConfig;
use crate::config::settings::ProgramModel;
use crate::config::values;
use crate::config::values::AutoRestart;
use crate::config::values::Signals;
use crate::number;
use crate::text;
use vstd::prelude::*;

verus! {

/// The restart rule of a program.
pub open spec fn autorestart_item(items: Seq<(Seq<char>, Seq<char>)>) -> Result<
    AutoRestart,
    Seq<char>,
> {
    match ini::value_of(items, "autorestart"@) {
        None => Ok(AutoRestart::Unexpected),
        Some(v) => values::autorestart_of(v),
    }
}

fn read_autorestart(items: &Vec<(String, String)>) -> (r: Result<AutoRestart, String>)
    ensures
        match autorestart_item(text::text_pairs(items@)) {
            Ok(n) => r matches Ok(v) && v == n,
            Err(e) => r matches Err(m) && m@ == e,
        },
{
    match ini::lookup(items.as_slice(), "autorestart") {
        None => Ok(AutoRestart::Unexpected),
        Some(v) => values::parse_autorestart(v),
    }
}

/// The exit codes a program is expected to end with.
pub open spec fn exitcodes_item(items: Seq<(Seq<char>, Seq<char>)>) -> Result<Seq<i32>, Seq<char>> {
    match ini::value_of(items, "exitcodes"@) {
        None => Ok(seq![0i32]),
        Some(v) => values::exit_codes(v),
    }
}

fn read_exitcodes(items: &Vec<(String, String)>) -> (r: Result<Vec<i32>, String>)
    ensures
        match exitcodes_item(text::text_pairs(items@)) {
            Ok(codes) => r matches Ok(v) && v@ == codes,
            Err(e) => r matches Err(m) && m@ == e,
        },
{
    match ini::lookup(items.as_slice(), "exitcodes") {
        None => {
            let mut codes: Vec<i32> = Vec::new();
            codes.push(0);
            proof {
                assert(codes@ =~= seq![0i32]);
            }
            Ok(codes)
        },
        Some(v) => values::parse_exitcodes(v),
    }
}

/// The signal that stops a program.
pub open spec fn stopsignal_item(items: Seq<(Seq<char>, Seq<char>)>, signals: Signals) -> Result<
    i32,
    Seq<char>,
> {
    match ini::value_of(items, "stopsignal"@) {
        None => Ok(signals.term),
        Some(v) => values::signal_of(signals, v),
    }
}

fn read_stopsignal(items: &Vec<(String, String)>, signals: &Signals) -> (r: Result<i32, String>)
    ensures
        match stopsignal_item(text::text_pairs(items@), *signals) {
            Ok(n) => r matches Ok(v) && v == n,
            Err(e) => r matches Err(m) && m@ == e,
        },
{
    match ini::lookup(items.as_slice(), "stopsignal") {
        None => Ok(signals.term),
        Some(v) => values::signal_number(signals, v),
    }
}

/// Whether stderr goes where stdout goes. A listener keeps the two apart, so
/// that stderr cannot corrupt the protocol on stdout.
pub open spec fn redirect_item(items: Seq<(Seq<char>, Seq<char>)>, listener: bool) -> Result<
    bool,
    Seq<char>,
> {
    if listener {
        Ok(false)
    } else {
        settings::bool_item(items, "redirect_stderr"@, false)
    }
}

/// The log target that a value stands for.
pub open spec fn log_target_of(value: Option<Seq<char>>) -> LogTargetModel {
    match value {
        None => LogTargetModel::Auto,
        Some(v) => if v == "AUTO"@ {
            LogTargetModel::Auto
        } else if v == "NONE"@ {
            LogTargetModel::Discard
        } else {
            LogTargetModel::Path(v)
        },
    }
}

/// Reads a `*_logfile=` value: `AUTO`, `NONE` or a path.
pub fn parse_log_target(value: Option<&str>) -> (r: LogTarget)
    ensures
        r@ == log_target_of(
            match value {
                Some(v) => Some(v@),
                None => None,
            },
        ),
{
    match value {
        None => LogTarget::Auto,
        Some(v) => if text::same(v, "AUTO") {
            LogTarget::Auto
        } else if text::same(v, "NONE") {
            LogTarget::Discard
        } else {
            LogTarget::Path(v.to_string())
        },
    }
}

/// The event types a listener subscribes to.
pub open spec fn events_item(items: Seq<(Seq<char>, Seq<char>)>) -> Seq<Seq<char>> {
    match ini::value_of(items, "events"@) {
        None => Seq::empty(),
        Some(v) => values::event_names(v),
    }
}

fn read_events(items: &Vec<(String, String)>) -> (r: Vec<String>)
    ensures
        text::texts(r@) == events_item(text::text_pairs(items@)),
{
    match ini::lookup(items.as_slice(), "events") {
        None => {
            let r: Vec<String> = Vec::new();
            proof {
                assert(text::texts(r@) =~= Seq::<Seq<char>>::empty());
            }
            r
        },
        Some(v) => values::parse_events(v),
    }
}

/// How many instances a program has.
pub open spec fn numprocs_item(items: Seq<(Seq<char>, Seq<char>)>) -> Result<nat, Seq<char>> {
    settings::number_item(items, "numprocs"@, usize::MAX as nat, 1, "invalid numprocs"@)
}

/// The priority of a section: listeners start before the programs whose
/// events they want to see.
pub open spec fn program_priority(items: Seq<(Seq<char>, Seq<char>)>, listener: bool) -> Result<
    i32,
    Seq<char>,
> {
    settings::priority_item(
        items,
        if listener {
            -1i32
        } else {
            999i32
        },
        "invalid priority"@,
    )
}

/// How many seconds a process must stay up to count as started.
pub open spec fn startsecs_item(items: Seq<(Seq<char>, Seq<char>)>) -> Result<nat, Seq<char>> {
    settings::number_item(items, "startsecs"@, u64::MAX as nat, 1, "invalid startsecs"@)
}

/// How many failed starts are followed by another try.
pub open spec fn startretries_item(items: Seq<(Seq<char>, Seq<char>)>) -> Result<nat, Seq<char>> {
    settings::number_item(items, "startretries"@, u32::MAX as nat, 3, "invalid startretries"@)
}

/// How many seconds a process has to stop before it is killed.
pub open spec fn stopwaitsecs_item(items: Seq<(Seq<char>, Seq<char>)>) -> Result<nat, Seq<char>> {
    settings::number_item(items, "stopwaitsecs"@, u64::MAX as nat, 10, "invalid stopwaitsecs"@)
}

/// How many events a listener's buffer holds.
pub open spec fn buffer_size_item(items: Seq<(Seq<char>, Seq<char>)>) -> Result<nat, Seq<char>> {
    settings::number_item(items, "buffer_size"@, usize::MAX as nat, 10, "invalid buffer_size"@)
}

/// How large a log file may grow.
pub open spec fn maxbytes_item(items: Seq<(Seq<char>, Seq<char>)>, key: Seq<char>) -> Result<
    nat,
    Seq<char>,
> {
    settings::size_item(items, key, settings::DEFAULT_MAXBYTES as nat)
}

/// How many old log files are kept.
pub open spec fn backups_item(
    items: Seq<(Seq<char>, Seq<char>)>,
    key: Seq<char>,
    error: Seq<char>,
) -> Result<nat, Seq<char>> {
    settings::number_item(items, key, u32::MAX as nat, 10, error)
}

/// What is wrong with the log settings of a section.
pub open spec fn log_error(items: Seq<(Seq<char>, Seq<char>)>) -> Option<Seq<char>> {
    settings::first_error(
        settings::error_of(maxbytes_item(items, "stdout_logfile_maxbytes"@)),
        settings::first_error(
            settings::error_of(
                backups_item(
                    items,
                    "stdout_logfile_backups"@,
                    "invalid stdout_logfile_backups"@,
                ),
            ),
            settings::first_error(
                settings::error_of(maxbytes_item(items, "stderr_logfile_maxbytes"@)),
                settings::error_of(
                    backups_item(
                        items,
                        "stderr_logfile_backups"@,
                        "invalid stderr_logfile_backups"@,
                    ),
                ),
            ),
        ),
    )
}

/// What is wrong with the rules for stopping and ordering of a section.
pub open spec fn stop_error(
    items: Seq<(Seq<char>, Seq<char>)>,
    listener: bool,
    signals: Signals,
) -> Option<Seq<char>> {
    settings::first_error(
        settings::error_of(stopsignal_item(items, signals)),
        settings::first_error(
            settings::error_of(stopwaitsecs_item(items)),
            settings::first_error(
                settings::error_of(settings::umask_item(items)),
                settings::first_error(
                    settings::error_of(program_priority(items, listener)),
                    settings::first_error(
                        settings::error_of(redirect_item(items, listener)),
                        settings::error_of(buffer_size_item(items)),
                    ),
                ),
            ),
        ),
    )
}

/// What is wrong with the rules for starting of a section.
pub open spec fn start_error(items: Seq<(Seq<char>, Seq<char>)>) -> Option<Seq<char>> {
    settings::first_error(
        settings::error_of(numprocs_item(items)),
        settings::first_error(
            settings::error_of(settings::bool_item(items, "autostart"@, true)),
            settings::first_error(
                settings::error_of(autorestart_item(items)),
                settings::first_error(
                    settings::error_of(startsecs_item(items)),
                    settings::first_error(
                        settings::error_of(startretries_item(items)),
                        settings::error_of(exitcodes_item(items)),
                    ),
                ),
            ),
        ),
    )
}

/// `program` or `eventlistener`.
pub open spec fn section_kind(listener: bool) -> Seq<char> {
    if listener {
        "eventlistener"@
    } else {
        "program"@
    }
}

/// The command of a section, without which it means nothing.
pub open spec fn command_item(
    name: Seq<char>,
    items: Seq<(Seq<char>, Seq<char>)>,
    listener: bool,
) -> Result<Seq<char>, Seq<char>> {
    match ini::value_of(items, "command"@) {
        Some(v) => Ok(v),
        None => Err(
            "["@ + section_kind(listener) + ":"@ + name + "] is missing required 'command'"@,
        ),
    }
}

/// What is wrong with a section: the first of its faults.
pub open spec fn program_error(
    name: Seq<char>,
    items: Seq<(Seq<char>, Seq<char>)>,
    listener: bool,
    signals: Signals,
) -> Option<Seq<char>> {
    settings::first_error(
        settings::error_of(command_item(name, items, listener)),
        settings::first_error(
            start_error(items),
            settings::first_error(stop_error(items, listener, signals), log_error(items)),
        ),
    )
}

/// The name of instance `i`. Where the template gives all instances the
/// program's name, the number is added.
pub open spec fn instance_name(
    name: Seq<char>,
    template: Seq<char>,
    numprocs: nat,
    i: nat,
) -> Seq<char> {
    let given = values::process_name(template, name, i);
    if numprocs > 1 && given == name {
        name + "_"@ + number::zero_padded(number::nat_text(i), 2)
    } else {
        given
    }
}

/// The configuration of the instance called `instance`, where nothing is wrong.
pub open spec fn program_of(
    name: Seq<char>,
    items: Seq<(Seq<char>, Seq<char>)>,
    base: Seq<(Seq<char>, Seq<char>)>,
    listener: bool,
    signals: Signals,
    instance: Seq<char>,
) -> ProgramModel {
    ProgramModel {
        name: instance,
        program: name,
        group: name,
        command: command_item(name, items, listener)->Ok_0,
        directory: ini::value_of(items, "directory"@),
        autostart: settings::bool_item(items, "autostart"@, true)->Ok_0,
        autorestart: autorestart_item(items)->Ok_0,
        startsecs: startsecs_item(items)->Ok_0 as u64,
        startretries: startretries_item(items)->Ok_0 as u32,
        exitcodes: exitcodes_item(items)->Ok_0,
        stopsignal: stopsignal_item(items, signals)->Ok_0,
        stopwaitsecs: stopwaitsecs_item(items)->Ok_0 as u64,
        environment: base + settings::environment_item(items),
        user: ini::value_of(items, "user"@),
        umask: settings::umask_item(items)->Ok_0,
        priority: program_priority(items, listener)->Ok_0,
        redirect_stderr: redirect_item(items, listener)->Ok_0,
        stdout_logfile: log_target_of(ini::value_of(items, "stdout_logfile"@)),
        stdout_logfile_maxbytes: maxbytes_item(items, "stdout_logfile_maxbytes"@)->Ok_0 as u64,
        stdout_logfile_backups: backups_item(
            items,
            "stdout_logfile_backups"@,
            "invalid stdout_logfile_backups"@,
        )->Ok_0 as u32,
        stderr_logfile: log_target_of(ini::value_of(items, "stderr_logfile"@)),
        stderr_logfile_maxbytes: maxbytes_item(items, "stderr_logfile_maxbytes"@)->Ok_0 as u64,
        stderr_logfile_backups: backups_item(
            items,
            "stderr_logfile_backups"@,
            "invalid stderr_logfile_backups"@,
        )->Ok_0 as u32,
        is_listener: listener,
        events: events_item(items),
        buffer_size: buffer_size_item(items)->Ok_0 as usize,
    }
}

/// The instances that a section describes (one at least), or what is wrong
/// with it. Every instance starts from the environment `base`.
pub open spec fn programs_of(
    name: Seq<char>,
    items: Seq<(Seq<char>, Seq<char>)>,
    base: Seq<(Seq<char>, Seq<char>)>,
    listener: bool,
    signals: Signals,
) -> Result<Seq<ProgramModel>, Seq<char>> {
    match program_error(name, items, listener, signals) {
        Some(e) => Err(e),
        None => {
            let numprocs = numprocs_item(items)->Ok_0;
            let template = settings::text_item(items, "process_name"@, "%(program_name)s"@);
            let count = if numprocs == 0 {
                1nat
            } else {
                numprocs
            };
            Ok(
                Seq::new(
                    count,
                    |i: int|
                        program_of(
                            name,
                            items,
                            base,
                            listener,
                            signals,
                            instance_name(name, template, numprocs, i as nat),
                        ),
                ),
            )
        },
    }
}

fn read_command(name: &str, items: &Vec<(String, String)>, listener: bool) -> (r: Result<
    String,
    String,
>)
    ensures
        match command_item(name@, text::text_pairs(items@), listener) {
            Ok(n) => r matches Ok(v) && v@ == n,
            Err(e) => r matches Err(m) && m@ == e,
        },
{
    match ini::lookup(items.as_slice(), "command") {
        Some(v) => Ok(v.to_string()),
        None => {
            let mut e = "[".to_string();
            e.append(
                if listener {
                    "eventlistener"
                } else {
                    "program"
                },
            );
            e.append(":");
            e.append(name);
            e.append("] is missing required 'command'");
            Err(e)
        },
    }
}

/// The name of instance `i`.
fn name_instance(name: &str, template: &str, numprocs: usize, i: usize) -> (r: String)
    ensures
        r@ == instance_name(name@, template@, numprocs as nat, i as nat),
{
    let given = values::expand_process_name(template, name, i);
    if numprocs > 1 && text::same(given.as_str(), name) {
        let mut r = name.to_string();
        r.append("_");
        r.append(number::padded_string(i as u64, 2).as_str());
        r
    } else {
        given
    }
}

/// The variables of `base`, followed by those that the section sets.
fn merge_environment(base: &Vec<(String, String)>, items: &Vec<(String, String)>) -> (r: Vec<
    (String, String),
>)
    ensures
        text::text_pairs(r@) == text::text_pairs(base@) + settings::environment_item(
            text::text_pairs(items@),
        ),
{
    let mut environment = text::copy_pairs(base);
    let mut more = settings::read_environment(items);
    let ghost a = environment@;
    let ghost b = more@;
    environment.append(&mut more);
    proof {
        assert(text::text_pairs(environment@) =~= text::text_pairs(a) + text::text_pairs(b));
    }
    environment
}

/// Reads a `[program:x]` or `[eventlistener:x]` section. Every instance
/// starts from the environment `base`.
pub fn parse_program(
    name: &str,
    items: &Vec<(String, String)>,
    base: &Vec<(String, String)>,
    is_listener: bool,
    signals: &Signals,
) -> (r: Result<Vec<ProgramConfig>, String>)
    ensures
        match programs_of(
            name@,
            text::text_pairs(items@),
            text::text_pairs(base@),
            is_listener,
            *signals,
        ) {
            Ok(m) => r matches Ok(v) && settings::program_list(v@) == m,
            Err(e) => r matches Err(m) && m@ == e,
        },
{
    let command = read_command(name, items, is_listener)?;
    let numprocs = settings::read_number(
        items,
        "numprocs",
        usize::MAX as u64,
        1,
        "invalid numprocs",
    )? as usize;
    let template = settings::read_text(items, "process_name", "%(program_name)s");
    let autostart = settings::read_bool(items, "autostart", true)?;
    let autorestart = read_autorestart(items)?;
    let startsecs = settings::read_number(items, "startsecs", u64::MAX, 1, "invalid startsecs")?;
    let startretries = settings::read_number(
        items,
        "startretries",
        u32::MAX as u64,
        3,
        "invalid startretries",
    )? as u32;
    let exitcodes = read_exitcodes(items)?;
    let stopsignal = read_stopsignal(items, signals)?;
    let stopwaitsecs = settings::read_number(
        items,
        "stopwaitsecs",
        u64::MAX,
        10,
        "invalid stopwaitsecs",
    )?;
    let umask = settings::read_umask(items)?;
    let priority = settings::read_priority(
        items,
        if is_listener {
            -1
        } else {
            999
        },
        "invalid priority",
    )?;
    let redirect_stderr = if is_listener {
        false
    } else {
        settings::read_bool(items, "redirect_stderr", false)?
    };
    let buffer_size = settings::read_number(
        items,
        "buffer_size",
        usize::MAX as u64,
        10,
        "invalid buffer_size",
    )? as usize;
    let stdout_logfile_maxbytes = settings::read_size(
        items,
        "stdout_logfile_maxbytes",
        settings::DEFAULT_MAXBYTES,
    )?;
    let stdout_logfile_backups = settings::read_number(
        items,
        "stdout_logfile_backups",
        u32::MAX as u64,
        10,
        "invalid stdout_logfile_backups",
    )? as u32;
    let stderr_logfile_maxbytes = settings::read_size(
        items,
        "stderr_logfile_maxbytes",
        settings::DEFAULT_MAXBYTES,
    )?;
    let stderr_logfile_backups = settings::read_number(
        items,
        "stderr_logfile_backups",
        u32::MAX as u64,
        10,
        "invalid stderr_logfile_backups",
    )? as u32;
    let pattern = ProgramConfig {
        name: name.to_string(),
        program: name.to_string(),
        group: name.to_string(),
        command,
        directory: settings::read_opt(items, "directory"),
        autostart,
        autorestart,
        startsecs,
        startretries,
        exitcodes,
        stopsignal,
        stopwaitsecs,
        environment: merge_environment(base, items),
        user: settings::read_opt(items, "user"),
        umask,
        priority,
        redirect_stderr,
        stdout_logfile: parse_log_target(ini::lookup(items.as_slice(), "stdout_logfile")),
        stdout_logfile_maxbytes,
        stdout_logfile_backups,
        stderr_logfile: parse_log_target(ini::lookup(items.as_slice(), "stderr_logfile")),
        stderr_logfile_maxbytes,
        stderr_logfile_backups,
        is_listener,
        events: read_events(items),
        buffer_size,
    };
    let ghost section = text::text_pairs(items@);
    proof {
        assert(pattern@ =~= program_of(
            name@,
            section,
            text::text_pairs(base@),
            is_listener,
            *signals,
            name@,
        ));
    }
    let count: usize = if numprocs == 0 {
        1
    } else {
        numprocs
    };
    let instances = instantiate(&pattern, name, template.as_str(), numprocs, count);
    proof {
        assert(settings::program_list(instances@) =~= programs_of(
            name@,
            section,
            text::text_pairs(base@),
            is_listener,
            *signals,
        )->Ok_0);
    }
    Ok(instances)
}

/// `count` copies of a configuration, each under its own name.
fn instantiate(
    pattern: &ProgramConfig,
    name: &str,
    template: &str,
    numprocs: usize,
    count: usize,
) -> (r: Vec<ProgramConfig>)
    ensures
        r@.len() == count,
        forall|i: int|
            0 <= i < count ==> (#[trigger] r@[i])@ == (ProgramModel {
                name: instance_name(name@, template@, numprocs as nat, i as nat),
                ..pattern@
            }),
{
    let mut r: Vec<ProgramConfig> = Vec::new();
    let mut i: usize = 0;
    while i < count
        invariant
            i <= count,
            r@.len() == i,
            forall|k: int|
                0 <= k < i ==> (#[trigger] r@[k])@ == (ProgramModel {
                    name: instance_name(name@, template@, numprocs as nat, k as nat),
                    ..pattern@
                }),
        decreases count - i,
    {
        let mut p = pattern.clone();
        p.name = name_instance(name, template, numprocs, i);
        r.push(p);
        i = i + 1;
    }
    r
}

} // verus!
