//! Command-line arguments of the schema cross-check tool: a command and
//! `--key value` pairs, every key at most once.
use vstd::prelude::*;

use crate::schema_parity::ParityError;
use crate::text::{
    chars_of, is_lit, starts_with, starts_with_exec, string_of, strip_prefix, strip_prefix_exec, text_of,
    trim, trim_exec,
};

verus! {

pub open spec fn pairs_view(v: Seq<(String, String)>) -> Seq<(Seq<char>, Seq<char>)> {
    v.map_values(|p: (String, String)| (p.0@, p.1@))
}

pub open spec fn has_key(options: Seq<(Seq<char>, Seq<char>)>, key: Seq<char>) -> bool {
    exists|i: int| 0 <= i < options.len() && #[trigger] options[i].0 == key
}

/// The `--key value` pairs from argument `i` on, after `acc`.
pub open spec fn options_spec(
    args: Seq<Seq<char>>,
    i: int,
    acc: Seq<(Seq<char>, Seq<char>)>,
) -> Result<Seq<(Seq<char>, Seq<char>)>, ParityError>
    decreases args.len() - i,
{
    if i < 0 || i >= args.len() {
        Ok(acc)
    } else {
        match strip_prefix(args[i], "--"@) {
            None => Err(ParityError::InvalidArgument),
            Some(key) => if key.len() == 0 || i + 1 >= args.len() {
                Err(ParityError::InvalidArgument)
            } else {
                let value = args[i + 1];
                if starts_with(value, "--"@) || has_key(acc, key) {
                    Err(ParityError::InvalidArgument)
                } else {
                    options_spec(args, i + 2, acc.push((key, value)))
                }
            },
        }
    }
}

pub open spec fn texts_of(v: Seq<String>) -> Seq<Seq<char>> {
    v.map_values(|s: String| s@)
}

/// Splits the arguments into the command and its `--key value` options.
/// A flag without `--`, an empty key, a missing value, a value that looks
/// like a flag or a repeated key is refused.
pub fn parse_arguments(arguments: Vec<String>) -> (r: Result<
    (String, Vec<(String, String)>),
    ParityError,
>)
    ensures
        arguments@.len() == 0 ==> r == Err::<(String, Vec<(String, String)>), ParityError>(
            ParityError::InvalidArgument,
        ),
        arguments@.len() > 0 ==> match r {
            Ok((c, o)) => c@ == arguments@[0]@ && options_spec(
                texts_of(arguments@),
                1,
                Seq::empty(),
            ) == Ok::<Seq<(Seq<char>, Seq<char>)>, ParityError>(pairs_view(o@)),
            Err(e) => options_spec(texts_of(arguments@), 1, Seq::empty()) == Err::<
                Seq<(Seq<char>, Seq<char>)>,
                ParityError,
            >(e),
        },
{
    if arguments.len() == 0 {
        return Err(ParityError::InvalidArgument);
    }
    let ghost av = texts_of(arguments@);
    let dashes = chars_of("--");
    let mut options: Vec<(String, String)> = Vec::new();
    let mut i: usize = 1;
    assert(pairs_view(options@) =~= Seq::<(Seq<char>, Seq<char>)>::empty());
    while i < arguments.len()
        invariant
            1 <= i,
            av == texts_of(arguments@),
            dashes@ == "--"@,
            options_spec(av, 1, Seq::empty()) == options_spec(av, i as int, pairs_view(options@)),
        decreases arguments.len() - i,
    {
        assert(av[i as int] == arguments@[i as int]@);
        let flag = text_of(&arguments[i]);
        let key = match strip_prefix_exec(flag.as_slice(), dashes.as_slice()) {
            Some(k) => k,
            None => return Err(ParityError::InvalidArgument),
        };
        if key.len() == 0 || i + 1 >= arguments.len() {
            return Err(ParityError::InvalidArgument);
        }
        assert(av[i + 1] == arguments@[i + 1]@);
        let value = text_of(&arguments[i + 1]);
        if starts_with_exec(value.as_slice(), dashes.as_slice()) || has_key_exec(&options, &key) {
            return Err(ParityError::InvalidArgument);
        }
        let ghost old_o = pairs_view(options@);
        options.push((string_of(key.as_slice()), string_of(value.as_slice())));
        assert(pairs_view(options@) =~= old_o.push((key@, value@)));
        i = i + 2;
    }
    let command = text_of(&arguments[0]);
    Ok((string_of(command.as_slice()), options))
}

fn has_key_exec(options: &Vec<(String, String)>, key: &Vec<char>) -> (b: bool)
    ensures
        b == has_key(pairs_view(options@), key@),
{
    let mut i: usize = 0;
    while i < options.len()
        invariant
            i <= options@.len(),
            forall|k: int| 0 <= k < i ==> options@[k].0@ != key@,
        decreases options.len() - i,
    {
        if crate::text::eq(text_of(&options[i].0).as_slice(), key.as_slice()) {
            assert(pairs_view(options@)[i as int].0 == key@);
            return true;
        }
        i = i + 1;
    }
    assert forall|k: int| 0 <= k < pairs_view(options@).len() implies #[trigger] pairs_view(
        options@,
    )[k].0 != key@ by {
        assert(pairs_view(options@)[k].0 == options@[k].0@);
    }
    false
}

/// Whether `key` is one of `allowed`.
pub open spec fn is_allowed(key: Seq<char>, allowed: Seq<&str>) -> bool {
    exists|j: int| 0 <= j < allowed.len() && allowed[j]@ == key
}

/// Refuses an option whose key is not among `allowed`.
pub fn require_only(options: &Vec<(String, String)>, allowed: &[&str]) -> (r: Result<(), ParityError>)
    ensures
        r is Ok <==> forall|i: int|
            0 <= i < options@.len() ==> is_allowed(#[trigger] options@[i].0@, allowed@),
        r is Err ==> r == Err::<(), ParityError>(ParityError::InvalidArgument),
{
    let mut i: usize = 0;
    while i < options.len()
        invariant
            i <= options@.len(),
            forall|k: int| 0 <= k < i ==> is_allowed(#[trigger] options@[k].0@, allowed@),
        decreases options.len() - i,
    {
        let key = text_of(&options[i].0);
        let mut j: usize = 0;
        let mut found = false;
        while j < allowed.len()
            invariant
                j <= allowed@.len(),
                i < options@.len(),
                key@ == options@[i as int].0@,
                found ==> is_allowed(options@[i as int].0@, allowed@),
                !found ==> forall|m: int| 0 <= m < j ==> allowed@[m]@ != options@[i as int].0@,
            decreases allowed.len() - j,
        {
            if crate::text::eq(key.as_slice(), chars_of(allowed[j]).as_slice()) {
                found = true;
            }
            j = j + 1;
        }
        if !found {
            return Err(ParityError::InvalidArgument);
        }
        i = i + 1;
    }
    Ok(())
}

/// The first position of an option named `key`.
pub open spec fn option_index(options: Seq<(Seq<char>, Seq<char>)>, key: Seq<char>, i: int) -> Option<int>
    decreases options.len() - i,
{
    if i < 0 || i >= options.len() {
        None
    } else if options[i].0 == key {
        Some(i)
    } else {
        option_index(options, key, i + 1)
    }
}

/// The value of option `key`, unless it is missing or blank.
pub fn required<'a>(options: &'a Vec<(String, String)>, key: &str) -> (r: Result<&'a str, ParityError>)
    ensures
        match option_index(pairs_view(options@), key@, 0) {
            Some(i) => if trim(pairs_view(options@)[i].1).len() > 0 {
                r matches Ok(v) && v@ == pairs_view(options@)[i].1
            } else {
                r == Err::<&str, ParityError>(ParityError::InvalidArgument)
            },
            None => r == Err::<&str, ParityError>(ParityError::InvalidArgument),
        },
{
    let k = chars_of(key);
    let ghost pv = pairs_view(options@);
    let mut i: usize = 0;
    while i < options.len()
        invariant
            i <= options@.len(),
            pv == pairs_view(options@),
            k@ == key@,
            option_index(pv, key@, 0) == option_index(pv, key@, i as int),
        decreases options.len() - i,
    {
        assert(pv[i as int] == (options@[i as int].0@, options@[i as int].1@));
        if crate::text::eq(text_of(&options[i].0).as_slice(), k.as_slice()) {
            let value = options[i].1.as_str();
            if trim_exec(chars_of(value).as_slice()).len() > 0 {
                return Ok(value);
            } else {
                return Err(ParityError::InvalidArgument);
            }
        }
        i = i + 1;
    }
    Err(ParityError::InvalidArgument)
}

/// Options that name each key once, each key non-empty and no value
/// looking like a flag.
pub open spec fn options_well_formed(o: Seq<(Seq<char>, Seq<char>)>) -> bool {
    &&& forall|i: int, j: int| 0 <= i < j < o.len() ==> #[trigger] o[i].0 != #[trigger] o[j].0
    &&& forall|i: int| 0 <= i < o.len() ==> (#[trigger] o[i]).0.len() > 0 && !starts_with(o[i].1, "--"@)
}

proof fn lemma_options_well_formed(args: Seq<Seq<char>>, i: int, acc: Seq<(Seq<char>, Seq<char>)>)
    requires
        options_well_formed(acc),
    ensures
        options_spec(args, i, acc) matches Ok(r) ==> options_well_formed(r),
    decreases args.len() - i,
{
    if 0 <= i < args.len() {
        if let Some(key) = strip_prefix(args[i], "--"@) {
            if key.len() > 0 && i + 1 < args.len() {
                let value = args[i + 1];
                if !starts_with(value, "--"@) && !has_key(acc, key) {
                    let acc2 = acc.push((key, value));
                    assert forall|a: int, b: int| 0 <= a < b < acc2.len() implies #[trigger] acc2[a].0
                        != #[trigger] acc2[b].0 by {
                        if b == acc.len() {
                            assert(acc2[a] == acc[a]);
                            if acc[a].0 == key {
                                assert(has_key(acc, key));
                            }
                        } else {
                            assert(acc2[a] == acc[a] && acc2[b] == acc[b]);
                        }
                    }
                    assert forall|a: int| 0 <= a < acc2.len() implies (#[trigger] acc2[a]).0.len() > 0
                        && !starts_with(acc2[a].1, "--"@) by {
                        if a < acc.len() {
                            assert(acc2[a] == acc[a]);
                        }
                    }
                    lemma_options_well_formed(args, i + 2, acc2);
                }
            }
        }
    }
}

/// Accepted arguments name every option once, under a non-empty key, with a
/// value that does not look like a flag.
pub proof fn law_options_well_formed(args: Seq<Seq<char>>)
    ensures
        options_spec(args, 1, Seq::empty()) matches Ok(r) ==> options_well_formed(r),
{
    lemma_options_well_formed(args, 1, Seq::empty());
}

/// The commands of the schema cross-check tool.
#[derive(Clone, Copy, Debug, PartialEq, Eq, Structural)]
pub enum Command {
    ParseDiesel,
    ParseSeaorm,
    Compare,
    Validate,
}

/// The command a name selects.
pub open spec fn command_named(name: Seq<char>) -> Option<Command> {
    if name == "parse-diesel"@ {
        Some(Command::ParseDiesel)
    } else if name == "parse-seaorm"@ {
        Some(Command::ParseSeaorm)
    } else if name == "compare"@ {
        Some(Command::Compare)
    } else if name == "validate"@ {
        Some(Command::Validate)
    } else {
        None
    }
}

/// The options a command accepts.
pub open spec fn accepts_option(c: Command, key: Seq<char>) -> bool {
    match c {
        Command::ParseDiesel => key == "input"@ || key == "output"@ || key == "engine"@ || key
            == "schema"@ || key == "generator-version"@,
        Command::ParseSeaorm => key == "input-dir"@ || key == "output"@ || key == "engine"@ || key
            == "schema"@ || key == "generator-version"@,
        Command::Compare => key == "expected"@ || key == "actual"@ || key == "output"@,
        Command::Validate => key == "input"@,
    }
}

/// The command named `name`, if its options are all ones it accepts.  An
/// unknown command, or an option the command does not take, is refused.
pub fn select_command(name: &str, options: &Vec<(String, String)>) -> (r: Result<
    Command,
    ParityError,
>)
    ensures
        match command_named(name@) {
            None => r == Err::<Command, ParityError>(ParityError::InvalidArgument),
            Some(c) => if forall|i: int|
                0 <= i < options@.len() ==> accepts_option(c, #[trigger] options@[i].0@) {
                r == Ok::<Command, ParityError>(c)
            } else {
                r == Err::<Command, ParityError>(ParityError::InvalidArgument)
            },
        },
{
    let n = chars_of(name);
    let (command, allowed): (Command, &[&str]) = if is_lit(n.as_slice(), "parse-diesel") {
        (Command::ParseDiesel, &["input", "output", "engine", "schema", "generator-version"])
    } else if is_lit(n.as_slice(), "parse-seaorm") {
        (Command::ParseSeaorm, &["input-dir", "output", "engine", "schema", "generator-version"])
    } else if is_lit(n.as_slice(), "compare") {
        (Command::Compare, &["expected", "actual", "output"])
    } else if is_lit(n.as_slice(), "validate") {
        (Command::Validate, &["input"])
    } else {
        return Err(ParityError::InvalidArgument);
    };
    assert(forall|key: Seq<char>| is_allowed(key, allowed@) <==> accepts_option(command, key));
    match require_only(options, allowed) {
        Ok(()) => Ok(command),
        Err(e) => Err(e),
    }
}


/// Whether command `c` reads option `key`: parse-diesel reads its input
/// file, parse-seaorm its entity directory, both their output, engine,
/// schema and generator version; compare reads the two projections and the
/// output; validate reads its input.
pub open spec fn needs_option(c: Command, key: Seq<char>) -> bool {
    let shared = key == "output"@ || key == "engine"@ || key == "schema"@ || key
        == "generator-version"@;
    match c {
        Command::ParseDiesel => key == "input"@ || shared,
        Command::ParseSeaorm => key == "input-dir"@ || shared,
        Command::Compare => key == "expected"@ || key == "actual"@ || key == "output"@,
        Command::Validate => key == "input"@,
    }
}

/// A command accepts exactly the options it reads: every option it needs is
/// accepted, and nothing else.  So a run that gives a command just the
/// options it reads is never refused.
pub proof fn law_commands_accept_what_they_read(c: Command, key: Seq<char>)
    ensures
        accepts_option(c, key) <==> needs_option(c, key),
{
}

/// A known command given only options it reads is selected.
pub proof fn law_needed_options_selected(name: Seq<char>, options: Seq<Seq<char>>)
    ensures
        command_named(name) matches Some(c) ==> ((forall|i: int|
            0 <= i < options.len() ==> needs_option(c, #[trigger] options[i])) ==> forall|i: int|
            0 <= i < options.len() ==> accepts_option(c, #[trigger] options[i])),
{
}

} // verus!
