//! Configuration.

use vstd::prelude::*;
use crate::strings;
use crate::strings::{digits_to_u64, trim};
use crate::text;
use crate::text::to_chars;

verus! {

broadcast use {vstd::string::group_string_axioms, vstd::seq::group_seq_axioms};

/// Canopy configuration.
#[derive(Debug)]
pub struct Config {
    pub core: CoreConfig,
    pub indexing: IndexingConfig,
    pub fts: FtsConfig,
    pub ignore: IgnoreConfig,
}

#[derive(Debug)]
pub struct CoreConfig {
    pub ttl: String,
    pub encoding: String,
    pub default_result_limit: usize,
}

#[derive(Debug)]
pub struct IndexingConfig {
    pub default_glob: String,
    pub chunk_threshold: usize,
    pub chunk_lines: usize,
    pub chunk_overlap: usize,
    pub preview_bytes: usize,
    /// The time to live of cache entries, in place of that of the core section.
    pub ttl: Option<String>,
}

#[derive(Debug)]
pub struct FtsConfig {
    pub tokenizer: String,
}

#[derive(Debug)]
pub struct IgnoreConfig {
    pub patterns: Vec<String>,
}

/// The patterns that are ignored unless the configuration says otherwise.
pub open spec fn default_ignores() -> Seq<Seq<char>> {
    seq![".git"@, ".canopy"@, "node_modules"@, "target"@, "__pycache__"@]
}

pub fn default_ttl() -> (r: String)
    ensures
        r@ == "1h"@,
{
    "1h".to_owned()
}

pub fn default_encoding() -> (r: String)
    ensures
        r@ == "cl100k_base"@,
{
    "cl100k_base".to_owned()
}

pub fn default_result_limit() -> (r: usize)
    ensures
        r == 100,
{
    100
}

pub fn default_glob() -> (r: String)
    ensures
        r@ == "**/*.{rs,py,js,ts,tsx,jsx,go,md,txt,json,yaml,yml,toml}"@,
{
    "**/*.{rs,py,js,ts,tsx,jsx,go,md,txt,json,yaml,yml,toml}".to_owned()
}

pub fn default_chunk_threshold() -> (r: usize)
    ensures
        r == 1_000_000,
{
    1_000_000
}

pub fn default_chunk_lines() -> (r: usize)
    ensures
        r == 50,
{
    50
}

pub fn default_chunk_overlap() -> (r: usize)
    ensures
        r == 10,
{
    10
}

pub fn default_preview_bytes() -> (r: usize)
    ensures
        r == 100,
{
    100
}

pub fn default_tokenizer() -> (r: String)
    ensures
        r@ == "unicode61"@,
{
    "unicode61".to_owned()
}

pub fn default_ignore_patterns() -> (r: Vec<String>)
    ensures
        text::views(r@) == default_ignores(),
{
    let r: Vec<String> = vec![
        ".git".to_owned(),
        ".canopy".to_owned(),
        "node_modules".to_owned(),
        "target".to_owned(),
        "__pycache__".to_owned(),
    ];
    assert(text::views(r@) =~= default_ignores());
    r
}

impl Default for CoreConfig {
    fn default() -> (r: CoreConfig)
        ensures
            r.ttl@ == "1h"@,
            r.encoding@ == "cl100k_base"@,
            r.default_result_limit == 100,
    {
        CoreConfig {
            ttl: default_ttl(),
            encoding: default_encoding(),
            default_result_limit: default_result_limit(),
        }
    }
}

impl Default for IndexingConfig {
    fn default() -> (r: IndexingConfig)
        ensures
            r.default_glob@ == "**/*.{rs,py,js,ts,tsx,jsx,go,md,txt,json,yaml,yml,toml}"@,
            r.chunk_threshold == 1_000_000,
            r.chunk_lines == 50,
            r.chunk_overlap == 10,
            r.preview_bytes == 100,
            r.ttl is None,
    {
        IndexingConfig {
            default_glob: default_glob(),
            chunk_threshold: default_chunk_threshold(),
            chunk_lines: default_chunk_lines(),
            chunk_overlap: default_chunk_overlap(),
            preview_bytes: default_preview_bytes(),
            ttl: None,
        }
    }
}

impl Default for FtsConfig {
    fn default() -> (r: FtsConfig)
        ensures
            r.tokenizer@ == "unicode61"@,
    {
        FtsConfig { tokenizer: default_tokenizer() }
    }
}

impl Default for IgnoreConfig {
    fn default() -> (r: IgnoreConfig)
        ensures
            text::views(r.patterns@) == default_ignores(),
    {
        IgnoreConfig { patterns: default_ignore_patterns() }
    }
}

impl Default for Config {
    fn default() -> (r: Config)
        ensures
            r.core.ttl@ == "1h"@,
            r.core.encoding@ == "cl100k_base"@,
            r.core.default_result_limit == 100,
            r.indexing.default_glob@ == "**/*.{rs,py,js,ts,tsx,jsx,go,md,txt,json,yaml,yml,toml}"@,
            r.indexing.chunk_threshold == 1_000_000,
            r.indexing.chunk_lines == 50,
            r.indexing.chunk_overlap == 10,
            r.indexing.preview_bytes == 100,
            r.indexing.ttl is None,
            r.fts.tokenizer@ == "unicode61"@,
            text::views(r.ignore.patterns@) == default_ignores(),
            duration_spec(r.ttl_spec()) == Some(3600nat),
    {
        proof {
            lemma_hour();
        }
        Config {
            core: CoreConfig::default(),
            indexing: IndexingConfig::default(),
            fts: FtsConfig::default(),
            ignore: IgnoreConfig::default(),
        }
    }
}

/// The number of seconds in a unit of time.
pub open spec fn unit_seconds(unit: char) -> Option<nat> {
    if unit == 's' {
        Some(1)
    } else if unit == 'm' {
        Some(60)
    } else if unit == 'h' {
        Some(3600)
    } else if unit == 'd' {
        Some(86400)
    } else {
        None
    }
}

/// The number of seconds that a text such as `30m` stands for: a number that
/// fits in 64 bits and a unit, with whitespace around them ignored.
pub open spec fn duration_spec(s: Seq<char>) -> Option<nat> {
    let t = strings::trim_spec(s);
    if t.len() == 0 {
        None
    } else {
        match (strings::parsed_number(t.drop_last(), u64::MAX as nat), unit_seconds(t.last())) {
            (Some(num), Some(unit)) => Some(num * unit),
            _ => None,
        }
    }
}

/// The default time to live is an hour.
proof fn lemma_hour()
    ensures
        duration_spec("1h"@) == Some(3600nat),
{
    reveal_strlit("1h");
    let t = "1h"@;
    let digits = t.drop_last();
    assert(strings::trim_start_spec(t) == t);
    assert(strings::trim_end_spec(t) == t);
    assert(digits =~= seq!['1']);
    assert(digits.drop_last() =~= Seq::<char>::empty());
    reveal_with_fuel(strings::digits_value, 2);
    let (num, unit) = (1nat, 3600nat);
    assert(strings::parsed_number(digits, u64::MAX as nat) == Some(num));
    assert(unit_seconds(t.last()) == Some(unit));
    assert(num * unit == 3600) by (nonlinear_arith)
        requires
            num == 1,
            unit == 3600,
    ;
    assert(strings::trim_spec(t) == t);
    assert(duration_spec(t) == Some(num * unit));
}

/// Whether a text stands for a number of seconds that fits in 64 bits, or for
/// none.
pub open spec fn duration_fits(s: Seq<char>) -> bool {
    duration_spec(s) matches Some(secs) ==> secs <= u64::MAX
}

/// The number of seconds that a text such as `1h`, `30m` or `1d` stands for.
pub fn parse_duration(s: &str) -> (r: Option<u64>)
    requires
        duration_fits(s@),
    ensures
        match r {
            Some(secs) => duration_spec(s@) == Some(secs as nat),
            None => duration_spec(s@) is None,
        },
{
    match checked_duration(s) {
        Some(r) => r,
        None => None,
    }
}

/// The number of seconds that a text such as `1h` stands for, if any; `None` on
/// the outside where that number does not fit in 64 bits.
pub fn checked_duration(s: &str) -> (r: Option<Option<u64>>)
    ensures
        r is Some <==> duration_fits(s@),
        match r {
            Some(Some(secs)) => duration_spec(s@) == Some(secs as nat),
            Some(None) => duration_spec(s@) is None,
            None => true,
        },
{
    let t: String = trim(s);
    let chars: Vec<char> = to_chars(t.as_str());
    let n: usize = chars.len();
    if n == 0 {
        return Some(None);
    }
    let start: usize = if n > 1 && chars[0] == '+' {
        1
    } else {
        0
    };
    let ghost number = t@.drop_last();
    proof {
        let digits = if number.len() > 0 && number[0] == '+' {
            number.drop_first()
        } else {
            number
        };
        assert(chars@.subrange(start as int, n - 1) =~= digits);
    }
    let num: u64 = match digits_to_u64(&chars, start, n - 1) {
        Some(num) => num,
        None => {
            return Some(None);
        },
    };
    let unit: u64 = match chars[n - 1] {
        's' => 1,
        'm' => 60,
        'h' => 3600,
        'd' => 86400,
        _ => {
            return Some(None);
        },
    };
    assert(unit_seconds(t@.last()) == Some(unit as nat));
    if num > u64::MAX / unit {
        assert(num * unit > u64::MAX) by (nonlinear_arith)
            requires
                num > u64::MAX / unit,
                unit > 0,
        ;
        return None;
    }
    assert(num * unit <= u64::MAX) by (nonlinear_arith)
        requires
            num <= u64::MAX / unit,
            unit > 0,
    ;
    Some(Some(num * unit))
}

impl Config {
    /// The text of the time to live of cache entries: that of the indexing
    /// section where it has one, else that of the core section.
    pub open spec fn ttl_spec(self) -> Seq<char> {
        match self.indexing.ttl {
            Some(ttl) => ttl@,
            None => self.core.ttl@,
        }
    }

    /// The text of the time to live of cache entries.
    pub fn ttl_text(&self) -> (r: &str)
        ensures
            r@ == self.ttl_spec(),
    {
        match &self.indexing.ttl {
            Some(ttl) => ttl.as_str(),
            None => self.core.ttl.as_str(),
        }
    }

    /// The time to live of cache entries in seconds: an hour where the
    /// configured text stands for none.
    pub fn ttl_duration(&self) -> (r: u64)
        requires
            duration_fits(self.ttl_spec()),
        ensures
            r == match duration_spec(self.ttl_spec()) {
                Some(secs) => secs,
                None => 3600,
            },
    {
        match parse_duration(self.ttl_text()) {
            Some(secs) => secs,
            None => 3600,
        }
    }

    /// The default glob pattern.
    pub fn default_glob(&self) -> (r: &str)
        ensures
            r@ == self.indexing.default_glob@,
    {
        self.indexing.default_glob.as_str()
    }
}

/// A number of minutes is sixty times as long as that of seconds, one of hours sixty
/// times as long as that of minutes, and one of days twenty-four times as long as that of
/// hours. A number of seconds is as long as it says.
pub proof fn law_durations(n: nat)
    requires
        n <= u64::MAX,
        forall|unit: char|
            unit == 's' || unit == 'm' || unit == 'h' || unit == 'd' ==> strings::trim_spec(
                #[trigger] strings::decimal(n).push(unit),
            ) == strings::decimal(n).push(unit),
    ensures
        ({
            let digits = strings::decimal(n);
            &&& duration_spec(digits.push('s')) == Some(n)
            &&& duration_spec(digits.push('m')) == Some(60 * n)
            &&& duration_spec(digits.push('h')) == Some(60 * (60 * n))
            &&& duration_spec(digits.push('d')) == Some(24 * (60 * (60 * n)))
        }),
{
    let digits = strings::decimal(n);
    strings::law_decimal_reads_back(n);
    strings::law_digits_parsed(n, u64::MAX as nat);
    assert(digits.push('s').drop_last() =~= digits);
    assert(digits.push('m').drop_last() =~= digits);
    assert(digits.push('h').drop_last() =~= digits);
    assert(digits.push('d').drop_last() =~= digits);
    let day = digits.push('d');
    let hour = digits.push('h');
    let minute = digits.push('m');
    let second = digits.push('s');
    assert(strings::trim_spec(day) == day && strings::trim_spec(hour) == hour);
    assert(strings::trim_spec(minute) == minute && strings::trim_spec(second) == second);
    assert(n * 1 == n && n * 60 == 60 * n && n * 3600 == 3600 * n && n * 86400 == 86400 * n)
        by (nonlinear_arith);
}

/// A text with another last character than that of a unit stands for no duration.
pub proof fn law_no_duration(s: Seq<char>)
    requires
        s.len() > 0,
        strings::trim_spec(s) == s,
        s.last() != 's' && s.last() != 'm' && s.last() != 'h' && s.last() != 'd',
    ensures
        duration_spec(s) is None,
{
}

/// The time to live of the index goes before the general one.
pub proof fn law_own_ttl_first(config: Config)
    ensures
        config.indexing.ttl matches Some(ttl) ==> config.ttl_spec() == ttl@,
        config.indexing.ttl is None ==> config.ttl_spec() == config.core.ttl@,
{
}

} // verus!
