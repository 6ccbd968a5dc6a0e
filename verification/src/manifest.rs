//! The CLI's structural surface — commands, positional arguments, flags, their enumerated values,
//! and defaults — derived from the parser's own command definitions, so the `manifest` answer
//! stays in lockstep with the parser. Per-flag prose is `--help`'s job, which the structure points
//! at.

use vstd::prelude::*;

use crate::text::{push_str, str_eq, strings_view};

verus! {

/// The command/flag structure's version, bumped whenever the derived structure changes.
pub const SURFACE_VERSION: u32 = 9;

/// A positional argument: its name, whether it is required, its enumerated values, and its
/// default.
#[derive(Debug, Clone, PartialEq, Eq)]
pub struct ArgManifest {
    /// The argument's name.
    pub name: String,
    /// Whether the invocation must supply it.
    pub required: bool,
    /// Its enumerated valid values, if it takes one of a fixed set.
    pub values: Vec<String>,
    /// Its default value, if any.
    pub default: Option<String>,
}

/// A named flag: whether it takes a value, its enumerated values, its default, and whether it is
/// accepted with every command.
#[derive(Debug, Clone, PartialEq, Eq)]
pub struct FlagManifest {
    /// The flag's long spelling.
    pub name: String,
    /// Whether it takes a value.
    pub takes_value: bool,
    /// Its enumerated valid values, if it takes one of a fixed set.
    pub values: Vec<String>,
    /// Its default value, if any.
    pub default: Option<String>,
    /// Whether it is accepted before or after any subcommand.
    pub global: bool,
}

/// One command's structure: its name, summary, positional arguments, and flags (its own, then
/// every inherited global flag).
#[derive(Debug, Clone, PartialEq, Eq)]
pub struct CommandManifest {
    /// The command's name.
    pub name: String,
    /// Its one-line summary, if any.
    pub about: Option<String>,
    /// Its positional arguments.
    pub args: Vec<ArgManifest>,
    /// Its flags.
    pub flags: Vec<FlagManifest>,
}

/// The derived surface structure, its version, and where the omitted prose lives.
#[derive(Debug, Clone, PartialEq, Eq)]
pub struct SurfaceStructure {
    /// The structure's version.
    pub surface_version: u32,
    /// Where the prose the structure omits lives.
    pub help: String,
    /// Every command's structure.
    pub commands: Vec<CommandManifest>,
}

/// One argument of a command definition, as the parser defines it.
#[derive(Debug, Clone, PartialEq, Eq)]
pub struct ArgSpec {
    /// The argument's identifier.
    pub id: String,
    /// Its long spelling, if it has one.
    pub long: Option<String>,
    /// Whether it is positional.
    pub positional: bool,
    /// Whether it is defined as global.
    pub global: bool,
    /// Whether its action stores a value (once or repeatedly).
    pub takes_value: bool,
    /// Its enumerated possible values.
    pub possible_values: Vec<String>,
    /// Its default values.
    pub defaults: Vec<String>,
    /// Whether it is required.
    pub required: bool,
}

/// A subcommand definition: its name, summary, and arguments in definition order.
#[derive(Debug, Clone, PartialEq, Eq)]
pub struct CommandSpec {
    /// The command's name.
    pub name: String,
    /// Its one-line summary, if any.
    pub about: Option<String>,
    /// Its arguments, in definition order.
    pub args: Vec<ArgSpec>,
}

/// An optional string's characters.
pub open spec fn opt_chars(o: Option<String>) -> Option<Seq<char>> {
    match o {
        Some(s) => Some(s@),
        None => None,
    }
}

/// The first of some default values.
pub open spec fn first_default(d: Seq<String>) -> Option<Seq<char>> {
    if d.len() > 0 {
        Some(d[0]@)
    } else {
        None
    }
}

/// A positional argument's entry as plain values.
pub open spec fn arg_view(a: ArgManifest) -> (Seq<char>, bool, Seq<Seq<char>>, Option<Seq<char>>) {
    (a.name@, a.required, strings_view(a.values@), opt_chars(a.default))
}

/// A flag's entry as plain values.
pub open spec fn flag_view(f: FlagManifest) -> (Seq<char>, bool, Seq<Seq<char>>, Option<Seq<char>>, bool) {
    (f.name@, f.takes_value, strings_view(f.values@), opt_chars(f.default), f.global)
}

/// The entry a positional argument definition yields.
pub open spec fn expected_arg(a: ArgSpec) -> (Seq<char>, bool, Seq<Seq<char>>, Option<Seq<char>>) {
    (a.id@, a.required, strings_view(a.possible_values@), first_default(a.defaults@))
}

/// The entry a flag definition yields: enumerated values are listed only for a flag that takes a
/// value.
pub open spec fn expected_flag(a: ArgSpec, global: bool) -> (Seq<char>, bool, Seq<Seq<char>>, Option<Seq<char>>, bool) {
    (
        opt_chars(a.long).unwrap_or(Seq::empty()),
        a.takes_value,
        if a.takes_value {
            strings_view(a.possible_values@)
        } else {
            Seq::empty()
        },
        first_default(a.defaults@),
        global,
    )
}

/// Whether a definition is one of a command's own listed flags: named, with a long spelling other
/// than `help` or `version`.
pub open spec fn is_own_flag(a: ArgSpec) -> bool {
    !a.positional && a.long is Some && a.long.unwrap()@ != "help"@ && a.long.unwrap()@ != "version"@
}

/// Whether a top-level definition is a global flag with a long spelling.
pub open spec fn is_global_flag(a: ArgSpec) -> bool {
    a.global && a.long is Some
}

/// The positional entries of some definitions, in order.
pub open spec fn positional_entries(args: Seq<ArgSpec>) -> Seq<(Seq<char>, bool, Seq<Seq<char>>, Option<Seq<char>>)>
    decreases args.len(),
{
    if args.len() == 0 {
        Seq::empty()
    } else if args.last().positional {
        positional_entries(args.drop_last()).push(expected_arg(args.last()))
    } else {
        positional_entries(args.drop_last())
    }
}

/// The own-flag entries of some definitions, in order.
pub open spec fn own_flag_entries(args: Seq<ArgSpec>) -> Seq<(Seq<char>, bool, Seq<Seq<char>>, Option<Seq<char>>, bool)>
    decreases args.len(),
{
    if args.len() == 0 {
        Seq::empty()
    } else if !args.last().positional && is_own_flag(args.last()) {
        own_flag_entries(args.drop_last()).push(expected_flag(args.last(), false))
    } else {
        own_flag_entries(args.drop_last())
    }
}

/// The global-flag entries of the top-level definitions, in order.
pub open spec fn global_flag_entries(args: Seq<ArgSpec>) -> Seq<(Seq<char>, bool, Seq<Seq<char>>, Option<Seq<char>>, bool)>
    decreases args.len(),
{
    if args.len() == 0 {
        Seq::empty()
    } else if is_global_flag(args.last()) {
        global_flag_entries(args.drop_last()).push(expected_flag(args.last(), true))
    } else {
        global_flag_entries(args.drop_last())
    }
}

/// A copy of some strings.
fn copy_strings(v: &Vec<String>) -> (r: Vec<String>)
    ensures
        strings_view(r@) == strings_view(v@),
{
    let mut r: Vec<String> = Vec::new();
    let mut k: usize = 0;
    while k < v.len()
        invariant
            k <= v.len(),
            strings_view(r@) == strings_view(v@).take(k as int),
        decreases v.len() - k,
    {
        let ghost before = r@;
        r.push(v[k].clone());
        proof {
            assert(strings_view(r@) =~= strings_view(before).push(v@[k as int]@));
            assert(strings_view(r@) =~= strings_view(v@).take(k + 1));
        }
        k = k + 1;
    }
    assert(strings_view(v@).take(v.len() as int) =~= strings_view(v@));
    r
}

/// The first default value, copied.
fn first_default_of(d: &Vec<String>) -> (r: Option<String>)
    ensures
        opt_chars(r) == first_default(d@),
{
    if d.len() > 0 {
        Some(d[0].clone())
    } else {
        None
    }
}

/// A flag's entry.
fn flag_manifest(arg: &ArgSpec, global: bool) -> (r: FlagManifest)
    requires
        arg.long is Some,
    ensures
        flag_view(r) == expected_flag(*arg, global),
{
    let name = match &arg.long {
        Some(l) => l.clone(),
        None => String::new(),
    };
    let values = if arg.takes_value {
        copy_strings(&arg.possible_values)
    } else {
        Vec::new()
    };
    assert(!arg.takes_value ==> strings_view(values@) =~= Seq::<Seq<char>>::empty());
    FlagManifest {
        name,
        takes_value: arg.takes_value,
        values,
        default: first_default_of(&arg.defaults),
        global,
    }
}

/// A copy of a flag's entry.
fn copy_flag(f: &FlagManifest) -> (r: FlagManifest)
    ensures
        flag_view(r) == flag_view(*f),
{
    let default = match &f.default {
        Some(d) => Some(d.clone()),
        None => None,
    };
    FlagManifest {
        name: f.name.clone(),
        takes_value: f.takes_value,
        values: copy_strings(&f.values),
        default,
        global: f.global,
    }
}

/// A positional argument's entry.
fn arg_manifest(arg: &ArgSpec) -> (r: ArgManifest)
    ensures
        arg_view(r) == expected_arg(*arg),
{
    ArgManifest {
        name: arg.id.clone(),
        required: arg.required,
        values: copy_strings(&arg.possible_values),
        default: first_default_of(&arg.defaults),
    }
}

/// A command's entry as plain values.
pub open spec fn command_view(c: CommandManifest) -> (
    Seq<char>,
    Option<Seq<char>>,
    Seq<(Seq<char>, bool, Seq<Seq<char>>, Option<Seq<char>>)>,
    Seq<(Seq<char>, bool, Seq<Seq<char>>, Option<Seq<char>>, bool)>,
) {
    (c.name@, opt_chars(c.about), c.args@.map_values(|a: ArgManifest| arg_view(a)), c.flags@.map_values(
        |f: FlagManifest| flag_view(f),
    ))
}

/// The entry a subcommand definition yields, given the top-level definitions.
pub open spec fn expected_command(sub: CommandSpec, top: Seq<ArgSpec>) -> (
    Seq<char>,
    Option<Seq<char>>,
    Seq<(Seq<char>, bool, Seq<Seq<char>>, Option<Seq<char>>)>,
    Seq<(Seq<char>, bool, Seq<Seq<char>>, Option<Seq<char>>, bool)>,
) {
    (sub.name@, opt_chars(sub.about), positional_entries(sub.args@), own_flag_entries(sub.args@)
        + global_flag_entries(top))
}

/// The global flags of the top-level definitions.
fn global_flags(top: &[ArgSpec]) -> (r: Vec<FlagManifest>)
    ensures
        r@.map_values(|f: FlagManifest| flag_view(f)) == global_flag_entries(top@),
{
    let mut r: Vec<FlagManifest> = Vec::new();
    let mut k: usize = 0;
    while k < top.len()
        invariant
            k <= top.len(),
            r@.map_values(|f: FlagManifest| flag_view(f)) == global_flag_entries(top@.take(k as int)),
        decreases top.len() - k,
    {
        proof {
            assert(top@.take(k + 1).drop_last() =~= top@.take(k as int));
        }
        let a = &top[k];
        if a.global && a.long.is_some() {
            let f = flag_manifest(a, true);
            let ghost before = r@;
            r.push(f);
            proof {
                assert(r@.map_values(|f: FlagManifest| flag_view(f)) =~= before.map_values(
                    |f: FlagManifest| flag_view(f),
                ).push(flag_view(f)));
            }
        }
        k = k + 1;
    }
    assert(top@.take(top.len() as int) =~= top@);
    r
}

/// One subcommand's entry: its positional arguments, its own flags, then every global flag.
fn command_manifest(sub: &CommandSpec, globals: &Vec<FlagManifest>) -> (r: CommandManifest)
    ensures
        command_view(r) == (sub.name@, opt_chars(sub.about), positional_entries(sub.args@), own_flag_entries(
            sub.args@,
        ) + globals@.map_values(|f: FlagManifest| flag_view(f))),
{
    let mut args: Vec<ArgManifest> = Vec::new();
    let mut flags: Vec<FlagManifest> = Vec::new();
    let mut k: usize = 0;
    while k < sub.args.len()
        invariant
            k <= sub.args.len(),
            args@.map_values(|a: ArgManifest| arg_view(a)) == positional_entries(sub.args@.take(k as int)),
            flags@.map_values(|f: FlagManifest| flag_view(f)) == own_flag_entries(sub.args@.take(k as int)),
        decreases sub.args.len() - k,
    {
        proof {
            assert(sub.args@.take(k + 1).drop_last() =~= sub.args@.take(k as int));
        }
        let a = &sub.args[k];
        if a.positional {
            let m = arg_manifest(a);
            let ghost before = args@;
            args.push(m);
            proof {
                assert(args@.map_values(|a: ArgManifest| arg_view(a)) =~= before.map_values(
                    |a: ArgManifest| arg_view(a),
                ).push(arg_view(m)));
            }
        } else {
            let own = match &a.long {
                Some(l) => !str_eq(l.as_str(), "help") && !str_eq(l.as_str(), "version"),
                None => false,
            };
            if own {
                let f = flag_manifest(a, false);
                let ghost before = flags@;
                flags.push(f);
                proof {
                    assert(flags@.map_values(|f: FlagManifest| flag_view(f)) =~= before.map_values(
                        |f: FlagManifest| flag_view(f),
                    ).push(flag_view(f)));
                }
            }
        }
        k = k + 1;
    }
    assert(sub.args@.take(sub.args.len() as int) =~= sub.args@);
    let ghost own_flags = flags@.map_values(|f: FlagManifest| flag_view(f));
    let ghost gv = globals@.map_values(|f: FlagManifest| flag_view(f));
    let mut j: usize = 0;
    while j < globals.len()
        invariant
            j <= globals.len(),
            gv == globals@.map_values(|f: FlagManifest| flag_view(f)),
            flags@.map_values(|f: FlagManifest| flag_view(f)) == own_flags + gv.take(j as int),
        decreases globals.len() - j,
    {
        let f = copy_flag(&globals[j]);
        let ghost before = flags@;
        flags.push(f);
        proof {
            assert(flags@.map_values(|f: FlagManifest| flag_view(f)) =~= before.map_values(
                |f: FlagManifest| flag_view(f),
            ).push(flag_view(f)));
            assert(gv[j as int] == flag_view(globals@[j as int]));
            assert(flags@.map_values(|f: FlagManifest| flag_view(f)) =~= own_flags + gv.take(j + 1));
        }
        j = j + 1;
    }
    assert(gv.take(globals.len() as int) =~= gv);
    let about = match &sub.about {
        Some(a) => Some(a.clone()),
        None => None,
    };
    CommandManifest { name: sub.name.clone(), about, args, flags }
}

/// Derive the structural surface from the top-level definitions and the subcommand definitions:
/// each subcommand's positional arguments, then its own flags (`help` and `version` aside), then
/// every top-level global flag, in definition order.
pub fn derive_structure(top: &[ArgSpec], subcommands: &[CommandSpec]) -> (r: SurfaceStructure)
    ensures
        r.surface_version == SURFACE_VERSION,
        r.help@ == "c10r <command> --help"@,
        r.commands@.len() == subcommands@.len(),
        forall|i: int|
            0 <= i < subcommands@.len() ==> command_view(#[trigger] r.commands@[i]) == expected_command(
                subcommands@[i],
                top@,
            ),
{
    let globals = global_flags(top);
    let mut commands: Vec<CommandManifest> = Vec::new();
    let mut k: usize = 0;
    while k < subcommands.len()
        invariant
            k <= subcommands.len(),
            globals@.map_values(|f: FlagManifest| flag_view(f)) == global_flag_entries(top@),
            commands@.len() == k,
            forall|i: int|
                0 <= i < k ==> command_view(#[trigger] commands@[i]) == expected_command(
                    subcommands@[i],
                    top@,
                ),
        decreases subcommands.len() - k,
    {
        let c = command_manifest(&subcommands[k], &globals);
        commands.push(c);
        k = k + 1;
    }
    let mut help = String::new();
    push_str(&mut help, "c10r <command> --help");
    SurfaceStructure { surface_version: SURFACE_VERSION, help, commands }
}

} // verus!
