use vstd::prelude::*;

verus! {

/// The program's settings.
pub struct Opt {
    /// A fixed answer word.
    pub word: Option<String>,
    /// Draw the answer at random.
    pub random: bool,
    /// Hard mode.
    pub difficult: bool,
    /// Print statistics after each game.
    pub stats: bool,
    /// Seed of the shuffled answer order in random mode.
    pub seed: Option<u64>,
    /// Day to start at in random mode.
    pub day: Option<usize>,
    /// File holding the possible answers.
    pub final_set: Option<String>,
    /// File holding the accepted guesses.
    pub acceptable_set: Option<String>,
    /// File in which games are saved and from which they are loaded.
    pub state: Option<String>,
    /// File holding settings.
    pub config: Option<String>,
    /// Show hints from the solver.
    pub hint: bool,
    /// Run the solver over all answers.
    pub calculate: bool,
}

/// The settings found in a configuration file, each present only where the
/// file gives a value of the right kind.
pub struct ConfigValues {
    pub word: Option<String>,
    pub random: Option<bool>,
    pub difficult: Option<bool>,
    pub stats: Option<bool>,
    pub seed: Option<u64>,
    pub day: Option<i64>,
    pub final_set: Option<String>,
    pub acceptable_set: Option<String>,
    pub state: Option<String>,
}

/// A setting given on the command line wins over the file's.
pub open spec fn pick<T>(given: Option<T>, from_file: Option<T>) -> Option<T> {
    if given is Some {
        given
    } else {
        from_file
    }
}

/// A switch is on when the command line sets it, else as the file says, else off.
pub open spec fn pick_flag(given: bool, from_file: Option<bool>) -> bool {
    if given {
        true
    } else {
        match from_file {
            Some(b) => b,
            None => false,
        }
    }
}

pub open spec fn string_view(o: Option<String>) -> Option<Seq<char>> {
    match o {
        Some(s) => Some(s@),
        None => None,
    }
}

fn pick_string(given: &Option<String>, from_file: &Option<String>) -> (r: Option<String>)
    ensures
        string_view(r) == pick(string_view(*given), string_view(*from_file)),
{
    match given {
        Some(s) => Some(s.clone()),
        None => match from_file {
            Some(s) => Some(s.clone()),
            None => None,
        },
    }
}

fn pick_switch(given: bool, from_file: Option<bool>) -> (r: bool)
    ensures
        r == pick_flag(given, from_file),
{
    if given {
        true
    } else {
        match from_file {
            Some(b) => b,
            None => false,
        }
    }
}

/// `r` is `opt` once the settings read from a configuration file at
/// `path` are taken into account: each setting given on the command line
/// stays; a missing one takes the file's value where the file has one; the
/// day from the file is converted to `usize` as Rust's `as` does; the
/// file's path is recorded.
pub open spec fn merged(
    r: Opt,
    opt: Opt,
    path: Option<Seq<char>>,
    word: Option<Seq<char>>,
    random: Option<bool>,
    difficult: Option<bool>,
    stats: Option<bool>,
    seed: Option<u64>,
    day: Option<i64>,
    final_set: Option<Seq<char>>,
    acceptable_set: Option<Seq<char>>,
    state: Option<Seq<char>>,
) -> bool {
    &&& string_view(r.word) == pick(string_view(opt.word), word)
    &&& r.random == pick_flag(opt.random, random)
    &&& r.difficult == pick_flag(opt.difficult, difficult)
    &&& r.stats == pick_flag(opt.stats, stats)
    &&& r.seed == pick(opt.seed, seed)
    &&& r.day == pick(
        opt.day,
        match day {
            Some(d) => Some(d as usize),
            None => None,
        },
    )
    &&& string_view(r.final_set) == pick(string_view(opt.final_set), final_set)
    &&& string_view(r.acceptable_set) == pick(string_view(opt.acceptable_set), acceptable_set)
    &&& string_view(r.state) == pick(string_view(opt.state), state)
    &&& string_view(r.config) == path
    &&& r.hint == opt.hint
    &&& r.calculate == opt.calculate
}

/// A switch set on the command line stays on whatever the file says; one
/// not set takes the file's boolean, and is off when the file has none. A
/// value given on the command line stays; a missing one takes the file's.
pub proof fn lemma_command_line_wins(
    r: Opt,
    opt: Opt,
    path: Option<Seq<char>>,
    word: Option<Seq<char>>,
    random: Option<bool>,
    difficult: Option<bool>,
    stats: Option<bool>,
    seed: Option<u64>,
    day: Option<i64>,
    final_set: Option<Seq<char>>,
    acceptable_set: Option<Seq<char>>,
    state: Option<Seq<char>>,
)
    requires
        merged(
            r,
            opt,
            path,
            word,
            random,
            difficult,
            stats,
            seed,
            day,
            final_set,
            acceptable_set,
            state,
        ),
    ensures
        opt.random ==> r.random,
        opt.difficult ==> r.difficult,
        opt.stats ==> r.stats,
        !opt.random ==> (r.random <==> random == Some(true)),
        !opt.difficult ==> (r.difficult <==> difficult == Some(true)),
        !opt.stats ==> (r.stats <==> stats == Some(true)),
        opt.word is Some ==> string_view(r.word) == string_view(opt.word),
        opt.word is None ==> string_view(r.word) == word,
        opt.seed is Some ==> r.seed == opt.seed,
        opt.seed is None ==> r.seed == seed,
        opt.day is Some ==> r.day == opt.day,
        opt.final_set is Some ==> string_view(r.final_set) == string_view(opt.final_set),
        opt.acceptable_set is Some ==> string_view(r.acceptable_set) == string_view(opt.acceptable_set),
        opt.state is Some ==> string_view(r.state) == string_view(opt.state),
{
}

/// The settings once the values `config` of a configuration file are taken
/// into account, as `merged` says.
pub fn parse_config(config_path: &Option<String>, opt: &Opt, config: &ConfigValues) -> (r: Opt)
    requires
        config_path is Some,
    ensures
        merged(
            r,
            *opt,
            string_view(*config_path),
            string_view(config.word),
            config.random,
            config.difficult,
            config.stats,
            config.seed,
            config.day,
            string_view(config.final_set),
            string_view(config.acceptable_set),
            string_view(config.state),
        ),
{
    let day = match opt.day {
        Some(d) => Some(d),
        None => match config.day {
            Some(d) => Some(d as usize),
            None => None,
        },
    };
    let seed = match opt.seed {
        Some(s) => Some(s),
        None => config.seed,
    };
    Opt {
        word: pick_string(&opt.word, &config.word),
        random: pick_switch(opt.random, config.random),
        difficult: pick_switch(opt.difficult, config.difficult),
        stats: pick_switch(opt.stats, config.stats),
        seed,
        day,
        final_set: pick_string(&opt.final_set, &config.final_set),
        acceptable_set: pick_string(&opt.acceptable_set, &config.acceptable_set),
        state: pick_string(&opt.state, &config.state),
        config: pick_string(config_path, &None),
        hint: opt.hint,
        calculate: opt.calculate,
    }
}

/// The text is one JSON value, as `serde_json` reads it.
pub uninterp spec fn config_parses(text: Seq<char>) -> bool;

/// The string that the JSON text gives for `key`, if it is an object with
/// a string there.
pub uninterp spec fn config_string(text: Seq<char>, key: Seq<char>) -> Option<Seq<char>>;

/// The boolean that the JSON text gives for `key`, if it is an object with
/// a boolean there.
pub uninterp spec fn config_bool(text: Seq<char>, key: Seq<char>) -> Option<bool>;

/// The integer that the JSON text gives for `key`, if it is an object with
/// a number there that fits in `u64`.
pub uninterp spec fn config_u64(text: Seq<char>, key: Seq<char>) -> Option<u64>;

/// The integer that the JSON text gives for `key`, if it is an object with
/// a number there that fits in `i64`.
pub uninterp spec fn config_i64(text: Seq<char>, key: Seq<char>) -> Option<i64>;

/// `serde_json::from_str::<Value>`: whether the text parses as JSON. What
/// counts as JSON is named `config_parses`, not stated.
#[verifier::external_body]
fn json_parses(text: &str) -> (r: bool)
    ensures
        r == config_parses(text@),
{
    serde_json::from_str::<serde_json::Value>(text).is_ok()
}

/// `serde_json::from_str::<Value>`, then `Value::get(key)` and
/// `Value::as_str`: the string at `key`, none when the text does not parse,
/// is not an object, lacks the key or holds something else there.
#[verifier::external_body]
fn json_string(text: &str, key: &str) -> (r: Option<String>)
    ensures
        string_view(r) == config_string(text@, key@),
        !config_parses(text@) ==> r is None,
{
    serde_json::from_str::<serde_json::Value>(text).ok()?.get(key)?.as_str().map(String::from)
}

/// As `json_string`, with `Value::as_bool`.
#[verifier::external_body]
fn json_bool(text: &str, key: &str) -> (r: Option<bool>)
    ensures
        r == config_bool(text@, key@),
        !config_parses(text@) ==> r is None,
{
    serde_json::from_str::<serde_json::Value>(text).ok()?.get(key)?.as_bool()
}

/// As `json_string`, with `Value::as_u64`.
#[verifier::external_body]
fn json_u64(text: &str, key: &str) -> (r: Option<u64>)
    ensures
        r == config_u64(text@, key@),
        !config_parses(text@) ==> r is None,
{
    serde_json::from_str::<serde_json::Value>(text).ok()?.get(key)?.as_u64()
}

/// As `json_string`, with `Value::as_i64`.
#[verifier::external_body]
fn json_i64(text: &str, key: &str) -> (r: Option<i64>)
    ensures
        r == config_i64(text@, key@),
        !config_parses(text@) ==> r is None,
{
    serde_json::from_str::<serde_json::Value>(text).ok()?.get(key)?.as_i64()
}

/// The settings that the JSON text of a configuration file gives, each
/// present where the file has a value of the right kind under its key;
/// `None` when the text is not JSON.
pub fn config_values(text: &str) -> (r: Option<ConfigValues>)
    ensures
        r is None <==> !config_parses(text@),
        r matches Some(c) ==> {
            &&& string_view(c.word) == config_string(text@, "word"@)
            &&& c.random == config_bool(text@, "random"@)
            &&& c.difficult == config_bool(text@, "difficult"@)
            &&& c.stats == config_bool(text@, "stats"@)
            &&& c.seed == config_u64(text@, "seed"@)
            &&& c.day == config_i64(text@, "day"@)
            &&& string_view(c.final_set) == config_string(text@, "final_set"@)
            &&& string_view(c.acceptable_set) == config_string(text@, "acceptable_set"@)
            &&& string_view(c.state) == config_string(text@, "state"@)
        },
{
    if !json_parses(text) {
        return None;
    }
    Some(
        ConfigValues {
            word: json_string(text, "word"),
            random: json_bool(text, "random"),
            difficult: json_bool(text, "difficult"),
            stats: json_bool(text, "stats"),
            seed: json_u64(text, "seed"),
            day: json_i64(text, "day"),
            final_set: json_string(text, "final_set"),
            acceptable_set: json_string(text, "acceptable_set"),
            state: json_string(text, "state"),
        },
    )
}

/// The settings once the configuration file whose text is `text` is taken
/// into account, as `merged` says of the values the JSON gives; `None`
/// when the text is not JSON.
pub fn parse_config_text(config_path: &Option<String>, opt: &Opt, text: &str) -> (r: Option<Opt>)
    requires
        config_path is Some,
    ensures
        r is None <==> !config_parses(text@),
        r matches Some(o) ==> merged(
            o,
            *opt,
            string_view(*config_path),
            config_string(text@, "word"@),
            config_bool(text@, "random"@),
            config_bool(text@, "difficult"@),
            config_bool(text@, "stats"@),
            config_u64(text@, "seed"@),
            config_i64(text@, "day"@),
            config_string(text@, "final_set"@),
            config_string(text@, "acceptable_set"@),
            config_string(text@, "state"@),
        ),
{
    match config_values(text) {
        Some(c) => Some(parse_config(config_path, opt, &c)),
        None => None,
    }
}

} // verus!
