//! From sections to a configuration: the settings of every section, group
//! membership, and the order in which programs start.
use crate::config::ini;
use crate::config::ini::Section;
use crate::config::ini::SectionModel;
use crate::config::program;
use crate::config::settings;
use crate::config::settings::AuthModel;
use crate::config::settings::HttpAuth;
use crate::config::settings::ProgramConfig;
use crate::config::settings::ProgramModel;
use crate::config::settings::SupervisordConfig;
use crate::config::settings::SupervisordModel;
use crate::config::values;
use crate::config::values::Signals;
use crate::text;
use vstd::prelude::*;
use vstd::slice::slice_subrange;

verus! {

/// The fully parsed configuration file.
#[derive(Debug)]
pub struct Config {
    pub supervisord: SupervisordConfig,
    pub programs: Vec<ProgramConfig>,
    /// Path to the unix control socket (`[unix_http_server] file=`).
    pub socket_path: Option<String>,
    /// Credentials for the unix socket, if configured.
    pub unix_auth: HttpAuth,
    /// `ip:port` from `[inet_http_server] port=`, if the section is present.
    pub inet_addr: Option<String>,
    /// Credentials for the inet server, if configured.
    pub inet_auth: HttpAuth,
    /// The path this configuration was loaded from.
    pub path: Option<String>,
}

/// The mathematical content of a [`Config`].
#[verifier::ext_equal]
pub struct ConfigModel {
    pub supervisord: SupervisordModel,
    pub programs: Seq<ProgramModel>,
    pub socket_path: Option<Seq<char>>,
    pub unix_auth: AuthModel,
    pub inet_addr: Option<Seq<char>>,
    pub inet_auth: AuthModel,
    pub path: Option<Seq<char>>,
}

impl View for Config {
    type V = ConfigModel;

    open spec fn view(&self) -> ConfigModel {
        ConfigModel {
            supervisord: self.supervisord@,
            programs: settings::program_list(self.programs@),
            socket_path: text::opt_text(self.socket_path),
            unix_auth: self.unix_auth@,
            inet_addr: text::opt_text(self.inet_addr),
            inet_auth: self.inet_auth@,
            path: text::opt_text(self.path),
        }
    }
}

// ---------------------------------------------------------------------------
// Sections
// ---------------------------------------------------------------------------

/// The configuration before any section is read.
pub open spec fn blank_config(tmpdir: Seq<char>) -> ConfigModel {
    ConfigModel {
        supervisord: settings::default_supervisord(tmpdir),
        programs: Seq::empty(),
        socket_path: None,
        unix_auth: AuthModel { username: None, password: None },
        inet_addr: None,
        inet_auth: AuthModel { username: None, password: None },
        path: None,
    }
}

/// `c` with the programs of a section added.
pub open spec fn with_programs(
    c: ConfigModel,
    name: Seq<char>,
    items: Seq<(Seq<char>, Seq<char>)>,
    listener: bool,
    signals: Signals,
) -> Result<ConfigModel, Seq<char>> {
    match program::programs_of(
        text::trimmed(name),
        items,
        c.supervisord.environment,
        listener,
        signals,
    ) {
        Ok(more) => Ok(ConfigModel { programs: c.programs + more, ..c }),
        Err(e) => Err(e),
    }
}

/// The configuration after one more section. Sections with other names,
/// groups among them, change nothing here.
pub open spec fn after_section(
    c: ConfigModel,
    s: SectionModel,
    tmpdir: Seq<char>,
    signals: Signals,
) -> Result<ConfigModel, Seq<char>> {
    if s.name == "supervisord"@ {
        match settings::supervisord_of(s.items, tmpdir) {
            Ok(m) => Ok(ConfigModel { supervisord: m, ..c }),
            Err(e) => Err(e),
        }
    } else if s.name == "unix_http_server"@ {
        Ok(
            ConfigModel {
                socket_path: match ini::value_of(s.items, "file"@) {
                    Some(f) => Some(f),
                    None => c.socket_path,
                },
                unix_auth: settings::auth_items(s.items),
                ..c
            },
        )
    } else if s.name == "inet_http_server"@ {
        Ok(
            ConfigModel {
                inet_addr: match ini::value_of(s.items, "port"@) {
                    Some(p) => Some(values::inet_addr(p)),
                    None => c.inet_addr,
                },
                inet_auth: settings::auth_items(s.items),
                ..c
            },
        )
    } else if text::has_prefix(s.name, "program:"@) {
        with_programs(c, s.name.skip(8), s.items, false, signals)
    } else if text::has_prefix(s.name, "eventlistener:"@) {
        with_programs(c, s.name.skip(14), s.items, true, signals)
    } else {
        Ok(c)
    }
}

/// The configuration after the sections from `i` on.
pub open spec fn after_sections(
    c: ConfigModel,
    sections: Seq<SectionModel>,
    i: int,
    tmpdir: Seq<char>,
    signals: Signals,
) -> Result<ConfigModel, Seq<char>>
    decreases sections.len() - i,
{
    if i >= sections.len() {
        Ok(c)
    } else {
        match after_section(c, sections[i], tmpdir, signals) {
            Ok(next) => after_sections(next, sections, i + 1, tmpdir, signals),
            Err(e) => Err(e),
        }
    }
}

// ---------------------------------------------------------------------------
// Groups
// ---------------------------------------------------------------------------

/// A program in a group. The group's priority, if it has one, becomes its own.
pub open spec fn in_group(p: ProgramModel, group: Seq<char>, priority: Option<i32>) -> ProgramModel {
    ProgramModel {
        group,
        priority: match priority {
            Some(n) => n,
            None => p.priority,
        },
        ..p
    }
}

/// The programs after every instance of `member` has joined a group.
pub open spec fn joined(
    programs: Seq<ProgramModel>,
    member: Seq<char>,
    group: Seq<char>,
    priority: Option<i32>,
) -> Seq<ProgramModel> {
    programs.map_values(
        |p: ProgramModel|
            if p.program == member {
                in_group(p, group, priority)
            } else {
                p
            },
    )
}

/// Whether some instance belongs to the program `member`.
pub open spec fn has_program(programs: Seq<ProgramModel>, member: Seq<char>) -> bool {
    exists|i: int| 0 <= i < programs.len() && (#[trigger] programs[i]).program == member
}

/// The programs after the members from `i` on have joined a group.
pub open spec fn after_members(
    programs: Seq<ProgramModel>,
    members: Seq<Seq<char>>,
    i: int,
    group: Seq<char>,
    priority: Option<i32>,
) -> Result<Seq<ProgramModel>, Seq<char>>
    decreases members.len() - i,
{
    if i >= members.len() {
        Ok(programs)
    } else if has_program(programs, members[i]) {
        after_members(joined(programs, members[i], group, priority), members, i + 1, group, priority)
    } else {
        Err("[group:"@ + group + "] names unknown program "@ + members[i])
    }
}

/// The programs named by a group.
pub open spec fn group_members(items: Seq<(Seq<char>, Seq<char>)>) -> Seq<Seq<char>> {
    match ini::value_of(items, "programs"@) {
        Some(v) => values::comma_items(v),
        None => Seq::empty(),
    }
}

/// The priority that a group gives to its members, if it gives one.
pub open spec fn group_priority(items: Seq<(Seq<char>, Seq<char>)>) -> Result<
    Option<i32>,
    Seq<char>,
> {
    match ini::value_of(items, "priority"@) {
        None => Ok(None),
        Some(_) => match settings::priority_item(items, 0i32, "invalid group priority"@) {
            Ok(n) => Ok(Some(n)),
            Err(e) => Err(e),
        },
    }
}

/// The programs after one more section has been looked at for group membership.
pub open spec fn after_group(programs: Seq<ProgramModel>, s: SectionModel) -> Result<
    Seq<ProgramModel>,
    Seq<char>,
> {
    if text::has_prefix(s.name, "group:"@) {
        match group_priority(s.items) {
            Err(e) => Err(e),
            Ok(priority) => after_members(
                programs,
                group_members(s.items),
                0,
                text::trimmed(s.name.skip(6)),
                priority,
            ),
        }
    } else {
        Ok(programs)
    }
}

/// The programs after the sections from `i` on have been looked at for group membership.
pub open spec fn after_groups(
    programs: Seq<ProgramModel>,
    sections: Seq<SectionModel>,
    i: int,
) -> Result<Seq<ProgramModel>, Seq<char>>
    decreases sections.len() - i,
{
    if i >= sections.len() {
        Ok(programs)
    } else {
        match after_group(programs, sections[i]) {
            Ok(next) => after_groups(next, sections, i + 1),
            Err(e) => Err(e),
        }
    }
}

// ---------------------------------------------------------------------------
// Priorities
// ---------------------------------------------------------------------------

/// Where a program of priority `n` belongs: behind all that do not start later.
pub open spec fn slot(s: Seq<ProgramModel>, n: i32) -> int
    decreases s.len(),
{
    if s.len() == 0 || s.last().priority <= n {
        s.len() as int
    } else {
        slot(s.drop_last(), n)
    }
}

/// `slot` is a place in the list, and what comes behind it starts later.
pub proof fn lemma_slot_range(s: Seq<ProgramModel>, n: i32)
    ensures
        0 <= slot(s, n) <= s.len(),
        forall|i: int| slot(s, n) <= i < s.len() ==> (#[trigger] s[i]).priority > n,
    decreases s.len(),
{
    if s.len() > 0 && s.last().priority > n {
        let t = s.drop_last();
        lemma_slot_range(t, n);
        assert forall|i: int| slot(s, n) <= i < s.len() implies (#[trigger] s[i]).priority > n by {
            if i < t.len() {
                assert(t[i] == s[i]);
            }
        }
    }
}

/// Where a program of priority `n` belongs: behind all that do not start later.
pub fn find_slot(programs: &Vec<ProgramConfig>, n: i32) -> (r: usize)
    ensures
        r == slot(settings::program_list(programs@), n),
        r <= programs@.len(),
{
    let ghost all = settings::program_list(programs@);
    let mut k: usize = programs.len();
    proof {
        assert(all.take(k as int) =~= all);
    }
    while k > 0 && programs[k - 1].priority > n
        invariant
            k <= programs@.len(),
            all == settings::program_list(programs@),
            slot(all, n) == slot(all.take(k as int), n),
        decreases k,
    {
        proof {
            assert(all.take(k as int).last() == programs@[k - 1]@);
            assert(all.take(k as int).drop_last() =~= all.take(k as int - 1));
        }
        k = k - 1;
    }
    proof {
        if k > 0 {
            assert(all.take(k as int).last() == programs@[k - 1]@);
        }
    }
    k
}

/// `s` with `p` at its place.
pub open spec fn placed(s: Seq<ProgramModel>, p: ProgramModel) -> Seq<ProgramModel> {
    s.insert(slot(s, p.priority), p)
}

/// The programs in the order of their priorities, those of one priority in
/// the order in which they were given.
pub open spec fn by_priority(s: Seq<ProgramModel>) -> Seq<ProgramModel>
    decreases s.len(),
{
    if s.len() == 0 {
        s
    } else {
        placed(by_priority(s.drop_last()), s.last())
    }
}

/// The configuration that sections describe, or the first thing that is wrong.
pub open spec fn config_of(
    sections: Seq<SectionModel>,
    tmpdir: Seq<char>,
    signals: Signals,
    path: Option<Seq<char>>,
) -> Result<ConfigModel, Seq<char>> {
    match after_sections(blank_config(tmpdir), sections, 0, tmpdir, signals) {
        Err(e) => Err(e),
        Ok(c) => match after_groups(c.programs, sections, 0) {
            Err(e) => Err(e),
            Ok(programs) => Ok(ConfigModel { programs: by_priority(programs), path, ..c }),
        },
    }
}

/// The configuration that a text describes.
pub open spec fn config_of_text(s: Seq<char>, tmpdir: Seq<char>, signals: Signals) -> Result<
    ConfigModel,
    Seq<char>,
> {
    match ini::sections_of(s) {
        Ok(sections) => config_of(sections, tmpdir, signals, None),
        Err(e) => Err(e),
    }
}

impl Config {
    /// The configuration before any section is read.
    fn blank(tmpdir: &str) -> (r: Self)
        ensures
            r@ == blank_config(tmpdir@),
    {
        let programs: Vec<ProgramConfig> = Vec::new();
        proof {
            assert(settings::program_list(programs@) =~= Seq::<ProgramModel>::empty());
        }
        Config {
            supervisord: SupervisordConfig::default_in(tmpdir),
            programs,
            socket_path: None,
            unix_auth: HttpAuth { username: None, password: None },
            inet_addr: None,
            inet_auth: HttpAuth { username: None, password: None },
            path: None,
        }
    }

    /// Adds the programs of a section.
    fn add_programs(
        &mut self,
        name: &[char],
        items: &Vec<(String, String)>,
        listener: bool,
        signals: &Signals,
    ) -> (r: Result<(), String>)
        ensures
            match with_programs(old(self)@, name@, text::text_pairs(items@), listener, *signals) {
                Ok(c) => r is Ok && final(self)@ == c,
                Err(e) => r matches Err(m) && m@ == e,
            },
    {
        let title = text::string_of(text::trim(name));
        let mut more = program::parse_program(
            title.as_str(),
            items,
            &self.supervisord.environment,
            listener,
            signals,
        )?;
        let ghost a = self.programs@;
        let ghost b = more@;
        self.programs.append(&mut more);
        proof {
            assert(settings::program_list(self.programs@) =~= settings::program_list(a)
                + settings::program_list(b));
        }
        Ok(())
    }

    /// Takes the settings of one more section.
    fn add_section(&mut self, s: &Section, tmpdir: &str, signals: &Signals) -> (r: Result<
        (),
        String,
    >)
        ensures
            match after_section(old(self)@, s@, tmpdir@, *signals) {
                Ok(c) => r is Ok && final(self)@ == c,
                Err(e) => r matches Err(m) && m@ == e,
            },
    {
        let name = s.name.as_str();
        if text::same(name, "supervisord") {
            self.supervisord = settings::parse_supervisord(&s.items, tmpdir)?;
            return Ok(());
        }
        if text::same(name, "unix_http_server") {
            if let Some(f) = settings::read_opt(&s.items, "file") {
                self.socket_path = Some(f);
            }
            self.unix_auth = settings::read_auth(&s.items);
            return Ok(());
        }
        if text::same(name, "inet_http_server") {
            if let Some(p) = ini::lookup(s.items.as_slice(), "port") {
                self.inet_addr = Some(values::normalize_inet_addr(p));
            }
            self.inet_auth = settings::read_auth(&s.items);
            return Ok(());
        }
        proof {
            reveal_strlit("program:");
            reveal_strlit("eventlistener:");
        }
        let c = text::chars_of(name);
        let c = c.as_slice();
        if text::starts_with(c, "program:") {
            let rest = slice_subrange(c, 8, c.len());
            proof {
                assert(rest@ =~= c@.skip(8));
            }
            return self.add_programs(rest, &s.items, false, signals);
        }
        if text::starts_with(c, "eventlistener:") {
            let rest = slice_subrange(c, 14, c.len());
            proof {
                assert(rest@ =~= c@.skip(14));
            }
            return self.add_programs(rest, &s.items, true, signals);
        }
        Ok(())
    }

    /// Puts every instance of the program `member` into a group. Returns
    /// whether there is one.
    fn join(&mut self, member: &[char], group: &str, priority: Option<i32>) -> (r: bool)
        ensures
            final(self)@ == (ConfigModel {
                programs: joined(old(self)@.programs, member@, group@, priority),
                ..old(self)@
            }),
            r == has_program(old(self)@.programs, member@),
    {
        let ghost all = self.programs@;
        let ghost before = settings::program_list(all);
        let ghost start = self@;
        let mut found = false;
        let mut i: usize = 0;
        while i < self.programs.len()
            invariant
                i <= self.programs@.len(),
                self.programs@.len() == all.len(),
                before == settings::program_list(all),
                start == (ConfigModel { programs: before, ..self@ }),
                forall|k: int|
                    0 <= k < i ==> (#[trigger] self.programs@[k])@ == (if all[k]@.program == member@ {
                        in_group(all[k]@, group@, priority)
                    } else {
                        all[k]@
                    }),
                forall|k: int|
                    i <= k < self.programs@.len() ==> (#[trigger] self.programs@[k])@ == all[k]@,
                found == exists|k: int| 0 <= k < i && (#[trigger] before[k]).program == member@,
            decreases self.programs@.len() - i,
        {
            proof {
                assert(before[i as int] == all[i as int]@);
                assert(self.programs@[i as int]@ == all[i as int]@);
            }
            let c = text::chars_of(self.programs[i].program.as_str());
            if text::same_chars(c.as_slice(), member) {
                let mut p = self.programs[i].clone();
                p.group = group.to_string();
                if let Some(n) = priority {
                    p.priority = n;
                }
                proof {
                    assert(p@ =~= in_group(all[i as int]@, group@, priority));
                }
                self.programs.set(i, p);
                found = true;
            }
            i = i + 1;
        }
        proof {
            assert(self@.programs =~= joined(before, member@, group@, priority));
        }
        found
    }

    /// Looks at one more section for group membership.
    fn add_group(&mut self, s: &Section) -> (r: Result<(), String>)
        ensures
            match after_group(old(self)@.programs, s@) {
                Ok(programs) => r is Ok && final(self)@ == (ConfigModel { programs, ..old(self)@ }),
                Err(e) => r matches Err(m) && m@ == e,
            },
    {
        let c = text::chars_of(s.name.as_str());
        let c = c.as_slice();
        proof {
            reveal_strlit("group:");
        }
        if !text::starts_with(c, "group:") {
            return Ok(());
        }
        let rest = slice_subrange(c, 6, c.len());
        proof {
            assert(rest@ =~= c@.skip(6));
        }
        let group = text::string_of(text::trim(rest));
        let members = match ini::lookup(s.items.as_slice(), "programs") {
            Some(v) => values::comma_list(v),
            None => {
                let none: Vec<Vec<char>> = Vec::new();
                proof {
                    assert(text::char_lists(none@) =~= Seq::<Seq<char>>::empty());
                }
                none
            },
        };
        let priority = match ini::lookup(s.items.as_slice(), "priority") {
            None => None,
            Some(_) => Some(settings::read_priority(&s.items, 0, "invalid group priority")?),
        };
        let ghost names = group_members(s@.items);
        let ghost start = self@;
        let mut i: usize = 0;
        while i < members.len()
            invariant
                i <= members@.len(),
                names == text::char_lists(members@),
                start == (ConfigModel { programs: start.programs, ..self@ }),
                start == old(self)@,
                after_group(start.programs, s@) == after_members(
                    self@.programs,
                    names,
                    i as int,
                    group@,
                    priority,
                ),
            decreases members@.len() - i,
        {
            proof {
                assert(names[i as int] == members@[i as int]@);
            }
            if !self.join(members[i].as_slice(), group.as_str(), priority) {
                let mut e = "[group:".to_string();
                e.append(group.as_str());
                e.append("] names unknown program ");
                e.append(text::string_of(members[i].as_slice()).as_str());
                return Err(e);
            }
            i = i + 1;
        }
        Ok(())
    }

    /// Orders the programs by priority.
    fn sort(&mut self)
        ensures
            final(self)@ == (ConfigModel {
                programs: by_priority(old(self)@.programs),
                ..old(self)@
            }),
    {
        let ghost all = settings::program_list(self.programs@);
        let mut sorted: Vec<ProgramConfig> = Vec::new();
        let mut i: usize = 0;
        proof {
            assert(settings::program_list(sorted@) =~= by_priority(all.take(0)));
        }
        while i < self.programs.len()
            invariant
                i <= self.programs@.len(),
                all == settings::program_list(self.programs@),
                settings::program_list(sorted@) == by_priority(all.take(i as int)),
            decreases self.programs@.len() - i,
        {
            let p = self.programs[i].clone();
            let ghost before = settings::program_list(sorted@);
            let k = find_slot(&sorted, p.priority);
            sorted.insert(k, p);
            proof {
                assert(settings::program_list(sorted@) =~= before.insert(k as int, p@));
                assert(all.take(i as int + 1).drop_last() =~= all.take(i as int));
                assert(all.take(i as int + 1).last() == p@);
            }
            i = i + 1;
        }
        proof {
            assert(all.take(i as int) =~= all);
        }
        self.programs = sorted;
    }

    /// Builds a configuration from sections, with the signal numbers given.
    /// `path` is where the sections came from.
    pub fn build(
        sections: &Vec<Section>,
        tmpdir: &str,
        signals: &Signals,
        path: Option<String>,
    ) -> (r: Result<Config, String>)
        ensures
            match config_of(
                ini::section_models(sections@),
                tmpdir@,
                *signals,
                text::opt_text(path),
            ) {
                Ok(m) => r matches Ok(c) && c@ == m,
                Err(e) => r matches Err(m) && m@ == e,
            },
    {
        let ghost models = ini::section_models(sections@);
        let mut c = Config::blank(tmpdir);
        let mut i: usize = 0;
        while i < sections.len()
            invariant
                i <= sections@.len(),
                models == ini::section_models(sections@),
                after_sections(blank_config(tmpdir@), models, 0, tmpdir@, *signals)
                    == after_sections(c@, models, i as int, tmpdir@, *signals),
            decreases sections@.len() - i,
        {
            proof {
                assert(models[i as int] == sections@[i as int]@);
            }
            c.add_section(&sections[i], tmpdir, signals)?;
            i = i + 1;
        }
        let ghost read = c@;
        let mut j: usize = 0;
        while j < sections.len()
            invariant
                j <= sections@.len(),
                models == ini::section_models(sections@),
                after_sections(blank_config(tmpdir@), models, 0, tmpdir@, *signals) == Ok::<
                    ConfigModel,
                    Seq<char>,
                >(read),
                read == (ConfigModel { programs: read.programs, ..c@ }),
                after_groups(read.programs, models, 0) == after_groups(
                    c@.programs,
                    models,
                    j as int,
                ),
            decreases sections@.len() - j,
        {
            proof {
                assert(models[j as int] == sections@[j as int]@);
            }
            c.add_group(&sections[j])?;
            j = j + 1;
        }
        c.sort();
        c.path = path;
        Ok(c)
    }

    /// Parses a configuration from a single text, with the signal numbers given.
    pub fn parse_with(input: &str, tmpdir: &str, signals: &Signals) -> (r: Result<Config, String>)
        ensures
            match config_of_text(input@, tmpdir@, *signals) {
                Ok(m) => r matches Ok(c) && c@ == m,
                Err(e) => r matches Err(m) && m@ == e,
            },
    {
        let sections = ini::parse_ini(input)?;
        Config::build(&sections, tmpdir, signals, None)
    }

    /// Parses a configuration from a single text, without the files it names
    /// for inclusion. The logs of the processes go to `tmpdir` unless the text
    /// says otherwise; signals have the numbers of this platform.
    pub fn parse(input: &str, tmpdir: &str) -> (r: Result<Config, String>)
        ensures
            exists|signals: Signals| #[trigger]
                values::unix_signals(signals) && match config_of_text(input@, tmpdir@, signals) {
                    Ok(m) => r matches Ok(c) && c@ == m,
                    Err(e) => r matches Err(m) && m@ == e,
                },
    {
        let signals = values::platform_signals();
        Config::parse_with(input, tmpdir, &signals)
    }
}

// ---------------------------------------------------------------------------
// Included files
// ---------------------------------------------------------------------------

/// The file name patterns that the `[include]` sections from `i` on list.
pub open spec fn include_patterns(sections: Seq<SectionModel>, i: int) -> Seq<Seq<char>>
    decreases sections.len() - i,
{
    if i < 0 || i >= sections.len() {
        Seq::empty()
    } else {
        let rest = include_patterns(sections, i + 1);
        if sections[i].name == "include"@ {
            match ini::value_of(sections[i].items, "files"@) {
                Some(v) => text::words(v) + rest,
                None => rest,
            }
        } else {
            rest
        }
    }
}

/// The sections of a configuration file and of the files it includes, as far
/// as they have been read.
#[derive(Debug)]
pub struct Sources {
    pub sections: Vec<Section>,
}

impl View for Sources {
    type V = Seq<SectionModel>;

    open spec fn view(&self) -> Seq<SectionModel> {
        ini::section_models(self.sections@)
    }
}

impl Sources {
    /// The sections of the main file.
    pub fn read(input: &str) -> (r: Result<Sources, String>)
        ensures
            match ini::sections_of(input@) {
                Ok(m) => r matches Ok(s) && s@ == m,
                Err(e) => r matches Err(m) && m@ == e,
            },
    {
        let sections = ini::parse_ini(input)?;
        Ok(Sources { sections })
    }

    /// The file name patterns that the `[include]` sections list.
    pub fn patterns(&self) -> (r: Vec<String>)
        ensures
            text::texts(r@) == include_patterns(self@, 0),
    {
        let ghost models = self@;
        let mut r: Vec<String> = Vec::new();
        let mut i: usize = 0;
        proof {
            assert(text::texts(r@) + include_patterns(models, 0) =~= include_patterns(models, 0));
        }
        while i < self.sections.len()
            invariant
                i <= self.sections@.len(),
                models == self@,
                text::texts(r@) + include_patterns(models, i as int) == include_patterns(models, 0),
            decreases self.sections@.len() - i,
        {
            let s = &self.sections[i];
            proof {
                assert(models[i as int] == s@);
            }
            if text::same(s.name.as_str(), "include") {
                if let Some(v) = ini::lookup(s.items.as_slice(), "files") {
                    let c = text::chars_of(v);
                    let words = text::split_words(c.as_slice());
                    let ghost before = r@;
                    push_words(&mut r, &words);
                    proof {
                        let w = text::char_lists(words@);
                        let rest = include_patterns(models, i as int + 1);
                        assert(text::texts(before) + (w + rest) =~= text::texts(r@) + rest);
                    }
                }
            }
            i = i + 1;
        }
        proof {
            assert(text::texts(r@) + Seq::<Seq<char>>::empty() =~= text::texts(r@));
        }
        r
    }

    /// Adds the sections of an included file.
    pub fn add(&mut self, input: &str) -> (r: Result<(), String>)
        ensures
            match ini::sections_of(input@) {
                Ok(m) => r is Ok && final(self)@ == old(self)@ + m,
                Err(e) => r matches Err(m) && m@ == e && final(self)@ == old(self)@,
            },
    {
        let mut more = ini::parse_ini(input)?;
        let ghost a = self.sections@;
        let ghost b = more@;
        self.sections.append(&mut more);
        proof {
            assert(self@ =~= ini::section_models(a) + ini::section_models(b));
        }
        Ok(())
    }

    /// The configuration that all sections together describe.
    pub fn finish(&self, path: &str, tmpdir: &str) -> (r: Result<Config, String>)
        ensures
            exists|signals: Signals| #[trigger]
                values::unix_signals(signals) && match config_of(
                    self@,
                    tmpdir@,
                    signals,
                    Some(path@),
                ) {
                    Ok(m) => r matches Ok(c) && c@ == m,
                    Err(e) => r matches Err(m) && m@ == e,
                },
    {
        let signals = values::platform_signals();
        Config::build(&self.sections, tmpdir, &signals, Some(path.to_string()))
    }
}

/// Appends words to a list of strings.
fn push_words(r: &mut Vec<String>, words: &Vec<Vec<char>>)
    ensures
        text::texts(final(r)@) == text::texts(old(r)@) + text::char_lists(words@),
{
    let ghost before = r@;
    let mut i: usize = 0;
    proof {
        assert(text::texts(r@) =~= text::texts(before) + text::char_lists(words@).take(0));
    }
    while i < words.len()
        invariant
            i <= words@.len(),
            text::texts(r@) == text::texts(before) + text::char_lists(words@).take(i as int),
        decreases words@.len() - i,
    {
        let ghost sofar = r@;
        r.push(text::string_of(words[i].as_slice()));
        proof {
            let w = text::char_lists(words@);
            assert(text::texts(r@) =~= text::texts(sofar).push(w[i as int]));
            assert(w.take(i as int + 1) =~= w.take(i as int).push(w[i as int]));
            assert(text::texts(r@) =~= text::texts(before) + w.take(i as int + 1));
        }
        i = i + 1;
    }
    proof {
        assert(text::char_lists(words@).take(i as int) =~= text::char_lists(words@));
    }
}

/// Whether a file name pattern holds a wildcard.
pub fn has_wildcard(pattern: &str) -> (r: bool)
    ensures
        r == (pattern@.contains('*') || pattern@.contains('?')),
{
    let c = text::chars_of(pattern);
    let a = text::find_char(c.as_slice(), '*');
    let b = text::find_char(c.as_slice(), '?');
    proof {
        if a < c@.len() {
            assert(c@[a as int] == '*');
        }
        if b < c@.len() {
            assert(c@[b as int] == '?');
        }
    }
    a < c.len() || b < c.len()
}

} // verus!
