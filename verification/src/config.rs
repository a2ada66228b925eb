//! The compiled configuration: daemon settings, and the compile step that
//! turns the collector's raw settings, jobs and commands into the live
//! structures the daemon schedules. The configuration document itself is
//! read and pre-digested outside; this module owns every rule about what
//! the digested values mean.
use vstd::prelude::*;
use crate::color::{color_of_name, Color};
use vstd::string::StrSliceExecFns;
use crate::command_builder::CommandBuilder;
use crate::system_builder::SystemBuilder;
use crate::system_stage::{text_time, valid_schedule_text, SStage, Schedule};
use crate::text::{
    all_digits, digits_val, find_char, has_prefix, lower_of, parse_usize_from, split_char,
    find_from, split_string, starts_with_str, str_eq, trim_spec,
};

verus! {

/// Daemon settings: the worker pool size and the default row length of the
/// one-shot output formatter.
#[derive(Debug, Clone, Copy, PartialEq, Eq, Structural)]
pub struct Settings {
    pub threads: usize,
    pub default_row_length: usize,
}

impl Settings {
    pub fn new(threads: usize, default_row_length: usize) -> (s: Settings)
        ensures
            s == (Settings { threads, default_row_length }),
    {
        Settings { threads, default_row_length }
    }
}

/// How a stage's captured output is ordered and grouped before printing.
#[derive(Debug, Clone, Copy, PartialEq, Eq, Structural)]
pub struct SortRules {
    /// Whether the output's words are sorted.
    pub sorting: bool,
    /// How many words stand on one printed line.
    pub items_per_line: usize,
}

impl SortRules {
    pub fn new(i_p_l: usize, sorting: bool) -> (r: SortRules)
        ensures
            r == (SortRules { sorting, items_per_line: i_p_l }),
    {
        SortRules { sorting, items_per_line: i_p_l }
    }
}

/// The presentation a stage's special parameters ask for.
#[derive(Debug, Clone, Copy)]
pub struct SpecialFields {
    pub color: Color,
    pub sorted: Option<SortRules>,
}

impl SpecialFields {
    pub fn new(color: Color, sort_rules: Option<SortRules>) -> (r: SpecialFields)
        ensures
            r.color == color,
            r.sorted == sort_rules,
    {
        SpecialFields { color, sorted: sort_rules }
    }
}

/// The value of an `l<digits>` flag, if it is one.
pub open spec fn l_value(f: Seq<char>) -> Option<int> {
    if f.len() >= 1 && f[0] == 'l' && f.skip(1).len() > 0 && all_digits(f.skip(1)) && digits_val(
        f.skip(1),
    ) <= usize::MAX {
        Some(digits_val(f.skip(1)))
    } else {
        None
    }
}

/// One ordering flag applied to (sorting, items per line): `-s` turns
/// sorting off, `l<digits>` sets the items per line.
pub open spec fn apply_flag(st: (bool, usize), f: Seq<char>) -> (bool, usize) {
    (
        if f == "-s"@ {
            false
        } else {
            st.0
        },
        match l_value(f) {
            Some(v) => v as usize,
            None => st.1,
        },
    )
}

/// All ordering flags applied in order.
pub open spec fn fold_flags(st: (bool, usize), fs: Seq<Seq<char>>) -> (bool, usize)
    decreases fs.len(),
{
    if fs.len() == 0 {
        st
    } else {
        fold_flags(apply_flag(st, fs[0]), fs.skip(1))
    }
}

/// One special parameter applied to (color, sorting, items per line):
/// `color:<name>` picks the color (white when unknown), `o:<flags>` turns
/// sorting on and applies its semicolon-separated flags; anything else is
/// ignored.
pub open spec fn apply_param(st: (Color, bool, usize), p: Seq<char>) -> (Color, bool, usize) {
    if has_prefix(p, "color:"@) {
        let c = match color_of_name(lower_of(p.skip(6))) {
            Some(c) => c,
            None => Color::White,
        };
        (c, st.1, st.2)
    } else if has_prefix(p, "o:"@) {
        let fl = fold_flags((true, st.2), split_char(p.skip(2), ';'));
        (st.0, fl.0, fl.1)
    } else {
        st
    }
}

/// All special parameters applied in order.
pub open spec fn fold_params(st: (Color, bool, usize), ps: Seq<Seq<char>>) -> (Color, bool, usize)
    decreases ps.len(),
{
    if ps.len() == 0 {
        st
    } else {
        fold_params(apply_param(st, ps[0]), ps.skip(1))
    }
}

/// The presentation a parameter list denotes, starting from white,
/// unsorted, one item per line.
pub open spec fn special_fields_spec(ps: Seq<Seq<char>>) -> SpecialFields {
    let st = fold_params((Color::White, false, 1usize), ps);
    SpecialFields { color: st.0, sorted: Some(SortRules { sorting: st.1, items_per_line: st.2 }) }
}

/// Interprets a stage's special parameters, in order: later parameters
/// override earlier ones.
pub fn handle_special_parameters(params: &Vec<String>) -> (r: SpecialFields)
    ensures
        r == special_fields_spec(params@.map_values(|p: String| p@)),
{
    let ghost ps = params@.map_values(|p: String| p@);
    let mut color = Color::White;
    let mut sorting: bool = false;
    let mut ipl: usize = 1;
    proof {
        assert(ps.skip(0) =~= ps);
        reveal_strlit("color:");
        reveal_strlit("o:");
        reveal_strlit("l");
    }
    let n = params.len();
    let mut i: usize = 0;
    while i < n
        invariant
            n == params@.len(),
            ps == params@.map_values(|p: String| p@),
            ps.len() == n,
            i <= n,
            fold_params((Color::White, false, 1usize), ps) == fold_params(
                (color, sorting, ipl),
                ps.skip(i as int),
            ),
        decreases n - i,
    {
        proof {
            reveal_strlit("color:");
            reveal_strlit("o:");
            reveal_strlit("l");
        }
        let ghost st0 = (color, sorting, ipl);
        let p = params[i].as_str();
        proof {
            assert(ps[i as int] == params@[i as int]@);
            assert(ps.skip(i as int)[0] == ps[i as int]);
            assert(ps.skip(i as int).skip(1) =~= ps.skip(i as int + 1));
        }
        let plen = p.unicode_len();
        if starts_with_str(p, "color:") {
            let cname = p.substring_char(6, plen);
            proof {
                assert(cname@ =~= p@.skip(6));
            }
            color = match Color::from_str(cname) {
                Some(c) => c,
                None => Color::White,
            };
        } else if starts_with_str(p, "o:") {
            let flags_str = p.substring_char(2, plen);
            proof {
                assert(flags_str@ =~= p@.skip(2));
            }
            let flags = split_string(flags_str, ';');
            let ghost fs = split_char(p@.skip(2), ';');
            proof {
                assert(fs.skip(0) =~= fs);
            }
            let mut fsort: bool = true;
            let mut fipl: usize = ipl;
            let ghost ipl0 = ipl;
            let m = flags.len();
            let mut k: usize = 0;
            while k < m
                invariant
                    m == flags@.len(),
                    fs.len() == m,
                    forall|q: int| 0 <= q < m ==> (#[trigger] flags@[q])@ == fs[q],
                    k <= m,
                    fold_flags((true, ipl0), fs) == fold_flags((fsort, fipl), fs.skip(k as int)),
                decreases m - k,
            {
                proof {
                    reveal_strlit("l");
                }
                let ghost fst0 = (fsort, fipl);
                let f = flags[k].as_str();
                proof {
                    assert(fs.skip(k as int)[0] == fs[k as int]);
                    assert(fs.skip(k as int).skip(1) =~= fs.skip(k as int + 1));
                }
                if str_eq(f, "-s") {
                    fsort = false;
                }
                let flen = f.unicode_len();
                if starts_with_str(f, "l") {
                    proof {
                        assert(f@.take(1)[0] == f@[0]);
                    }
                    match parse_usize_from(f, 1) {
                        Some(v) => {
                            fipl = v;
                        },
                        None => {},
                    }
                } else {
                    proof {
                        if f@.len() >= 1 && f@[0] == 'l' {
                            assert(f@.take(1) =~= "l"@);
                        }
                    }
                }
                proof {
                    assert((fsort, fipl) == apply_flag(fst0, fs[k as int]));
                }
                k = k + 1;
            }
            proof {
                assert(fs.skip(m as int).len() == 0);
                assert(fold_flags((fsort, fipl), fs.skip(m as int)) == (fsort, fipl));
            }
            sorting = fsort;
            ipl = fipl;
        } else {
        }
        proof {
            assert((color, sorting, ipl) == apply_param(st0, ps[i as int]));
        }
        i = i + 1;
    }
    proof {
        assert(ps.skip(n as int).len() == 0);
        assert(fold_params((color, sorting, ipl), ps.skip(n as int)) == (color, sorting, ipl));
    }
    SpecialFields { color, sorted: Some(SortRules { sorting, items_per_line: ipl }) }
}

/// One job as the configuration collector hands it over: a name, a
/// description, a shell, and the stage commands with their recurrence
/// texts, pairwise.
#[derive(Debug, Clone)]
pub struct RawSystem {
    pub name: String,
    pub description: String,
    pub shell: String,
    pub stages: Vec<String>,
    pub schedules: Vec<String>,
}

/// One one-shot command as the collector hands it over.
#[derive(Debug, Clone)]
pub struct RawCommand {
    pub name: String,
    pub description: String,
    pub shell: String,
    pub stages: Vec<String>,
}

/// How many stages a raw job compiles to: its commands and recurrence
/// texts are paired off; anything unpaired is dropped.
pub open spec fn raw_stage_count(stages: Seq<String>, schedules: Seq<String>) -> int {
    if stages.len() <= schedules.len() {
        stages.len() as int
    } else {
        schedules.len() as int
    }
}

/// Whether every recurrence text a raw job pairs off is well formed.
pub open spec fn system_schedules_ok(raw: RawSystem) -> bool {
    forall|i: int|
        0 <= i < raw_stage_count(raw.stages@, raw.schedules@) ==> valid_schedule_text(
            (#[trigger] raw.schedules@[i])@,
        )
}

/// Whether `sb` is the compiled form of the raw job: name case-folded,
/// stage commands paired in order with their parsed recurrences.
pub open spec fn system_compiles_to(raw: RawSystem, sb: SystemBuilder) -> bool {
    &&& sb.name@ == lower_of(raw.name@)
    &&& sb.description@ == raw.description@
    &&& sb.shell@ == raw.shell@
    &&& sb.stages@.len() == raw_stage_count(raw.stages@, raw.schedules@)
    &&& forall|i: int|
        0 <= i < sb.stages@.len() ==> (#[trigger] sb.stages@[i]).command@ == raw.stages@[i]@
            && sb.stages@[i].schedule.0 == text_time(raw.schedules@[i]@)
}

/// Compiles one raw job: pairs every stage command with its recurrence
/// text and parses the recurrence. A malformed recurrence text is a hard
/// failure for the job.
pub fn compile_system(raw: &RawSystem) -> (r: Result<SystemBuilder, String>)
    ensures
        r is Ok <==> system_schedules_ok(*raw),
        r matches Ok(sb) ==> system_compiles_to(*raw, sb),
        r matches Err(e) ==> e@ == "Invalid schedule format"@,
{
    let mut sb = SystemBuilder::new(
        raw.name.clone(),
        raw.description.clone(),
        raw.shell.clone(),
    );
    let n1 = raw.stages.len();
    let n2 = raw.schedules.len();
    let n: usize = if n1 <= n2 {
        n1
    } else {
        n2
    };
    let mut i: usize = 0;
    while i < n
        invariant
            n1 == raw.stages@.len(),
            n2 == raw.schedules@.len(),
            n == raw_stage_count(raw.stages@, raw.schedules@),
            i <= n,
            sb.name@ == lower_of(raw.name@),
            sb.description@ == raw.description@,
            sb.shell@ == raw.shell@,
            sb.stages@.len() == i,
            forall|j: int|
                0 <= j < i ==> (#[trigger] sb.stages@[j]).command@ == raw.stages@[j]@
                    && sb.stages@[j].schedule.0 == text_time(raw.schedules@[j]@),
            forall|j: int| 0 <= j < i ==> valid_schedule_text((#[trigger] raw.schedules@[j])@),
        decreases n - i,
    {
        let sched = match Schedule::from_str(raw.schedules[i].as_str()) {
            Ok(s) => s,
            Err(e) => {
                return Err(e);
            },
        };
        let stage = SStage::new(raw.stages[i].clone(), sched);
        sb.add_stage(stage);
        i = i + 1;
    }
    Ok(sb)
}

/// What one stage text of a one-shot command adds to it, if anything: the
/// command text, its color, and its ordering rules. A text beginning `%`
/// carries bracketed special parameters; one whose brackets are malformed
/// or whose remainder is empty adds nothing.
pub open spec fn stage_addition(s: Seq<char>) -> Option<(Seq<char>, Color, Option<SortRules>)> {
    if s.len() > 0 && s[0] == '%' {
        match find_char(s.skip(1), '[') {
            None => None,
            Some(ix) => {
                let t = trim_spec(s.skip(1).skip(ix + 1));
                match find_char(t, ']') {
                    None => None,
                    Some(j) => {
                        let rest = t.skip(j + 1);
                        if rest.len() > 0 {
                            let sf = special_fields_spec(split_char(t.take(j), ','));
                            Some((rest, sf.color, sf.sorted))
                        } else {
                            None
                        }
                    },
                }
            },
        }
    } else {
        Some((s, Color::White, None))
    }
}

/// The stages a one-shot command's texts compile to, in order.
pub open spec fn command_stages_spec(texts: Seq<Seq<char>>) -> Seq<
    (Seq<char>, Color, Option<SortRules>),
>
    decreases texts.len(),
{
    if texts.len() == 0 {
        Seq::empty()
    } else {
        let prev = command_stages_spec(texts.drop_last());
        match stage_addition(texts.last()) {
            Some(t) => prev.push(t),
            None => prev,
        }
    }
}

/// Whether `cb` is the compiled form of the raw command: name case-folded,
/// each stage text interpreted in order.
pub open spec fn command_compiles_to(raw: RawCommand, cb: CommandBuilder) -> bool {
    let spec_stages = command_stages_spec(raw.stages@.map_values(|t: String| t@));
    &&& cb.name@ == lower_of(raw.name@)
    &&& cb.description@ == raw.description@
    &&& cb.shell@ == raw.shell@
    &&& cb.stages@.len() == spec_stages.len()
    &&& forall|i: int|
        0 <= i < cb.stages@.len() ==> (#[trigger] cb.stages@[i]).command@ == spec_stages[i].0
            && cb.stages@[i].color == spec_stages[i].1 && cb.stages@[i].sorted == spec_stages[i].2
}

/// Compiles one raw one-shot command: interprets each stage text, with its
/// `%[...]` special-parameter syntax, in order. A command that ends up with
/// no stages is dropped.
pub fn compile_command(raw: &RawCommand) -> (r: Option<CommandBuilder>)
    ensures
        r is Some <==> command_stages_spec(raw.stages@.map_values(|t: String| t@)).len() > 0,
        r matches Some(cb) ==> command_compiles_to(*raw, cb),
{
    let ghost texts = raw.stages@.map_values(|t: String| t@);
    let mut cb = CommandBuilder::new(
        raw.name.clone(),
        raw.description.clone(),
        raw.shell.clone(),
    );
    let n = raw.stages.len();
    let mut i: usize = 0;
    while i < n
        invariant
            n == raw.stages@.len(),
            texts == raw.stages@.map_values(|t: String| t@),
            texts.len() == n,
            i <= n,
            cb.name@ == lower_of(raw.name@),
            cb.description@ == raw.description@,
            cb.shell@ == raw.shell@,
            cb.stages@.len() == command_stages_spec(texts.take(i as int)).len(),
            forall|j: int|
                0 <= j < cb.stages@.len() ==> (#[trigger] cb.stages@[j]).command@
                    == command_stages_spec(texts.take(i as int))[j].0 && cb.stages@[j].color
                    == command_stages_spec(texts.take(i as int))[j].1 && cb.stages@[j].sorted
                    == command_stages_spec(texts.take(i as int))[j].2,
        decreases n - i,
    {
        let ghost prev = command_stages_spec(texts.take(i as int));
        let s = raw.stages[i].as_str();
        proof {
            assert(texts[i as int] == raw.stages@[i as int]@);
            assert(texts.take(i as int + 1).drop_last() =~= texts.take(i as int));
            assert(texts.take(i as int + 1).last() == texts[i as int]);
        }
        let slen = s.unicode_len();
        if slen > 0 && s.get_char(0) == '%' {
            match find_from(s, 1, '[') {
                None => {
                    proof {
                        assert(s@.skip(1).len() == s@.len() - 1);
                        assert(forall|q: int|
                            0 <= q < s@.skip(1).len() ==> s@.skip(1)[q] == s@[q + 1]);
                        crate::text::lemma_find_char_spec(s@.skip(1), '[');
                        if find_char(s@.skip(1), '[') is Some {
                            let w = find_char(s@.skip(1), '[')->Some_0;
                            assert(s@.skip(1)[w] == '[');
                        }
                        assert(stage_addition(texts[i as int]) is None);
                    }
                },
                Some(k) => {
                    proof {
                        assert(s@.skip(1).skip(k - 1) =~= s@.skip(k as int));
                    }
                    let t_slice = s.substring_char(k + 1, slen);
                    let t = crate::text::trim(t_slice);
                    proof {
                        assert(t_slice@ =~= s@.skip(1).skip(k - 1 + 1));
                    }
                    let tlen = t.unicode_len();
                    match find_from(t, 0, ']') {
                        None => {
                            proof {
                                assert(t@.skip(0) =~= t@);
                                assert(stage_addition(texts[i as int]) is None);
                            }
                        },
                        Some(j) => {
                            proof {
                                assert(t@.skip(0) =~= t@);
                                assert(find_char(t@, ']') == Some(j as int));
                            }
                            let params_str = t.substring_char(0, j);
                            proof {
                                assert(params_str@ =~= t@.take(j as int));
                            }
                            let params = split_string(params_str, ',');
                            let rest = t.substring_char(j + 1, tlen);
                            proof {
                                assert(rest@ =~= t@.skip(j + 1));
                            }
                            if rest.unicode_len() > 0 {
                                let sf = handle_special_parameters(&params);
                                proof {
                                    assert(params@.map_values(|p: String| p@) =~= split_char(
                                        t@.take(j as int),
                                        ',',
                                    ));
                                }
                                cb.add_stage(rest.to_owned(), sf.color, sf.sorted);
                                proof {
                                    assert(stage_addition(texts[i as int]) == Some(
                                        (t@.skip(j + 1), sf.color, sf.sorted),
                                    ));
                                    assert(command_stages_spec(texts.take(i as int + 1))
                                        == prev.push((t@.skip(j + 1), sf.color, sf.sorted)));
                                    assert(forall|q: int|
                                        0 <= q < prev.len() ==> #[trigger] prev.push(
                                            (t@.skip(j + 1), sf.color, sf.sorted),
                                        )[q] == prev[q]);
                                }
                            } else {
                                proof {
                                    assert(stage_addition(texts[i as int]) is None);
                                }
                            }
                        },
                    }
                },
            }
        } else {
            cb.add_stage(raw.stages[i].clone(), Color::White, None);
            proof {
                if s@.len() > 0 {
                    assert(s@[0] != '%');
                }
                assert(stage_addition(texts[i as int]) == Some(
                    (s@, Color::White, Option::<SortRules>::None),
                ));
                let added = (s@, Color::White, Option::<SortRules>::None);
                assert(command_stages_spec(texts.take(i as int + 1)) == prev.push(added));
                assert(forall|q: int|
                    0 <= q < prev.len() ==> #[trigger] prev.push(added)[q] == prev[q]);
            }
        }
        i = i + 1;
    }
    proof {
        assert(texts.take(n as int) =~= texts);
    }
    if cb.stages.len() > 0 {
        Some(cb)
    } else {
        None
    }
}

/// The raw commands that survive compilation: those with at least one
/// compiled stage, in order.
pub open spec fn kept_commands(raws: Seq<RawCommand>) -> Seq<RawCommand>
    decreases raws.len(),
{
    if raws.len() == 0 {
        Seq::empty()
    } else {
        let prev = kept_commands(raws.drop_last());
        if command_stages_spec(raws.last().stages@.map_values(|t: String| t@)).len() > 0 {
            prev.push(raws.last())
        } else {
            prev
        }
    }
}

/// Compiles a whole configuration: every job and every one-shot command,
/// keyed by their (original-case) names. One malformed recurrence text
/// fails the load; a command without stages is dropped.
pub fn compile_config(systems: &Vec<RawSystem>, commands: &Vec<RawCommand>) -> (r: Result<
    (Vec<(String, SystemBuilder)>, Vec<(String, CommandBuilder)>),
    String,
>)
    ensures
        r is Ok <==> (forall|i: int|
            0 <= i < systems@.len() ==> system_schedules_ok(#[trigger] systems@[i])),
        r matches Ok(p) ==> {
            &&& p.0@.len() == systems@.len()
            &&& forall|i: int|
                0 <= i < p.0@.len() ==> (#[trigger] p.0@[i]).0@ == systems@[i].name@
                    && system_compiles_to(systems@[i], p.0@[i].1)
            &&& p.1@.len() == kept_commands(commands@).len()
            &&& forall|i: int|
                0 <= i < p.1@.len() ==> (#[trigger] p.1@[i]).0@ == kept_commands(commands@)[i].name@
                    && command_compiles_to(kept_commands(commands@)[i], p.1@[i].1)
        },
        r matches Err(e) ==> e@ == "Invalid schedule format"@,
{
    let mut built_systems: Vec<(String, SystemBuilder)> = Vec::new();
    let ns = systems.len();
    let mut i: usize = 0;
    while i < ns
        invariant
            ns == systems@.len(),
            i <= ns,
            built_systems@.len() == i,
            forall|j: int|
                0 <= j < i ==> (#[trigger] built_systems@[j]).0@ == systems@[j].name@
                    && system_compiles_to(systems@[j], built_systems@[j].1),
            forall|j: int| 0 <= j < i ==> system_schedules_ok(#[trigger] systems@[j]),
        decreases ns - i,
    {
        let sb = match compile_system(&systems[i]) {
            Ok(sb) => sb,
            Err(e) => {
                return Err(e);
            },
        };
        built_systems.push((systems[i].name.clone(), sb));
        i = i + 1;
    }
    let mut built_commands: Vec<(String, CommandBuilder)> = Vec::new();
    let nc = commands.len();
    let mut k: usize = 0;
    while k < nc
        invariant
            nc == commands@.len(),
            k <= nc,
            built_commands@.len() == kept_commands(commands@.take(k as int)).len(),
            forall|j: int|
                0 <= j < built_commands@.len() ==> (#[trigger] built_commands@[j]).0@
                    == kept_commands(commands@.take(k as int))[j].name@ && command_compiles_to(
                    kept_commands(commands@.take(k as int))[j],
                    built_commands@[j].1,
                ),
        decreases nc - k,
    {
        let ghost prev = kept_commands(commands@.take(k as int));
        proof {
            assert(commands@.take(k as int + 1).drop_last() =~= commands@.take(k as int));
            assert(commands@.take(k as int + 1).last() == commands@[k as int]);
        }
        match compile_command(&commands[k]) {
            Some(cb) => {
                built_commands.push((commands[k].name.clone(), cb));
                proof {
                    assert(kept_commands(commands@.take(k as int + 1)) == prev.push(
                        commands@[k as int],
                    ));
                    assert(forall|q: int|
                        0 <= q < prev.len() ==> #[trigger] prev.push(commands@[k as int])[q]
                            == prev[q]);
                }
            },
            None => {
                proof {
                    assert(kept_commands(commands@.take(k as int + 1)) == prev);
                }
            },
        }
        k = k + 1;
    }
    proof {
        assert(commands@.take(nc as int) =~= commands@);
    }
    Ok((built_systems, built_commands))
}

} // verus!
