//! The settings of a plugin, which come from environment variables.

use crate::plugin::Plugin;
use vstd::prelude::*;

verus! {

pub const EVE_DEFAULT_URL: &'static str = "sqlite://./output_suricata/eve.db?mode=rwc";

pub const FILEDATA_DEFAULT_URL: &'static str = "sqlite://./output_suricata/filedata.db?mode=rwc";

pub const RAWDATA_DEFAULT_URL: &'static str = "sqlite://./output_suricata/rawdata.db?mode=rwc";

/// How many items may wait for the database thread, unless a variable says otherwise.
pub const DEFAULT_BUFFER_SIZE: usize = 1000;

/// The settings of a plugin.
#[derive(Debug, Clone)]
pub struct Config {
    pub database_url: String,
    pub buffer: usize,
}

/// The database of a plugin, unless a variable says otherwise.
pub open spec fn default_url_spec(plugin: Plugin) -> Seq<char> {
    match plugin {
        Plugin::Eve => EVE_DEFAULT_URL@,
        Plugin::Filedata => FILEDATA_DEFAULT_URL@,
        Plugin::Rawdata => RAWDATA_DEFAULT_URL@,
    }
}

/// The variable that names the database of a plugin.
pub open spec fn url_variable_spec(plugin: Plugin) -> Seq<char> {
    match plugin {
        Plugin::Eve => "EVE_DATABASE_URL"@,
        Plugin::Filedata => "FILEDATA_DATABASE_URL"@,
        Plugin::Rawdata => "RAWDATA_DATABASE_URL"@,
    }
}

/// The variable that says how many items may wait for the database thread of a plugin.
pub open spec fn buffer_variable_spec(plugin: Plugin) -> Seq<char> {
    match plugin {
        Plugin::Eve => "EVE_BUFFER"@,
        Plugin::Filedata => "FILEDATA_BUFFER"@,
        Plugin::Rawdata => "RAWDATA_BUFFER"@,
    }
}

/// The database of a plugin, unless a variable says otherwise.
pub fn default_url(plugin: Plugin) -> (r: &'static str)
    ensures
        r@ == default_url_spec(plugin),
{
    match plugin {
        Plugin::Eve => EVE_DEFAULT_URL,
        Plugin::Filedata => FILEDATA_DEFAULT_URL,
        Plugin::Rawdata => RAWDATA_DEFAULT_URL,
    }
}

/// The variable that names the database of a plugin.
pub fn url_variable(plugin: Plugin) -> (r: &'static str)
    ensures
        r@ == url_variable_spec(plugin),
{
    match plugin {
        Plugin::Eve => "EVE_DATABASE_URL",
        Plugin::Filedata => "FILEDATA_DATABASE_URL",
        Plugin::Rawdata => "RAWDATA_DATABASE_URL",
    }
}

/// The variable that says how many items may wait for the database thread of a plugin.
pub fn buffer_variable(plugin: Plugin) -> (r: &'static str)
    ensures
        r@ == buffer_variable_spec(plugin),
{
    match plugin {
        Plugin::Eve => "EVE_BUFFER",
        Plugin::Filedata => "FILEDATA_BUFFER",
        Plugin::Rawdata => "RAWDATA_BUFFER",
    }
}

/// A decimal digit.
pub open spec fn is_digit(c: char) -> bool {
    '0' <= c <= '9'
}

/// All characters are decimal digits.
pub open spec fn all_digits(s: Seq<char>) -> bool {
    forall|i: int| 0 <= i < s.len() ==> is_digit(#[trigger] s[i])
}

/// The number that decimal digits stand for.
pub open spec fn digits_value(s: Seq<char>) -> nat
    decreases s.len(),
{
    if s.len() == 0 {
        0
    } else {
        digits_value(s.drop_last()) * 10 + (s.last() as nat - '0' as nat) as nat
    }
}

/// `s` without the plus sign that it may begin with.
pub open spec fn without_plus(s: Seq<char>) -> Seq<char> {
    if s.len() > 0 && s[0] == '+' {
        s.skip(1)
    } else {
        s
    }
}

/// The size that `s` stands for: decimal digits behind an optional plus sign, and not too large.
pub open spec fn size_spec(s: Seq<char>) -> Option<usize> {
    let digits = without_plus(s);
    if digits.len() > 0 && all_digits(digits) && digits_value(digits) <= usize::MAX {
        Some(digits_value(digits) as usize)
    } else {
        None
    }
}

/// More digits never stand for less.
proof fn lemma_value_grows(s: Seq<char>, n: int)
    requires
        0 <= n <= s.len(),
    ensures
        digits_value(s.take(n)) <= digits_value(s),
    decreases s.len(),
{
    if n == s.len() {
        assert(s.take(n) =~= s);
    } else {
        assert(s.drop_last().take(n) =~= s.take(n));
        lemma_value_grows(s.drop_last(), n);
    }
}

/// The size that `s` stands for.
pub fn parse_size(s: &str) -> (r: Option<usize>)
    ensures
        r == size_spec(s@),
{
    let mut value: usize = 0;
    let mut seen: bool = false;
    let mut first: bool = true;
    let ghost digits = without_plus(s@);
    for c in it: s.chars()
        invariant
            it.seq() == s@,
            digits == without_plus(s@),
            first == (it.index() == 0),
            all_digits(without_plus(s@.take(it.index()))),
            value == digits_value(without_plus(s@.take(it.index()))),
            seen == (without_plus(s@.take(it.index())).len() > 0),
    {
        let ghost n = it.index();
        let ghost now = s@.take(n + 1);
        assert(now =~= s@.take(n).push(c));
        if first && c == '+' {
            first = false;
            assert(without_plus(now) =~= Seq::empty());
        } else {
            assert(without_plus(now) =~= without_plus(s@.take(n)).push(c));
            assert(without_plus(now).drop_last() =~= without_plus(s@.take(n)));
            assert(without_plus(now) =~= digits.take(without_plus(now).len() as int));
            assert(without_plus(now).last() == c);
            if !(c >= '0' && c <= '9') {
                assert(digits[without_plus(now).len() - 1] == c);
                return None;
            }
            let digit: usize = (c as u32 - '0' as u32) as usize;
            proof {
                lemma_value_grows(digits, without_plus(now).len() as int);
            }
            let tens: usize = match value.checked_mul(10) {
                Some(tens) => tens,
                None => {
                    return None;
                },
            };
            value = match tens.checked_add(digit) {
                Some(sum) => sum,
                None => {
                    return None;
                },
            };
            seen = true;
            first = false;
        }
    }
    assert(s@.take(s@.len() as int) =~= s@);
    if seen {
        Some(value)
    } else {
        None
    }
}

impl Config {
    /// The settings of a plugin, given the values of its two variables where they are set. A
    /// buffer that is no size is as good as none.
    pub fn new(plugin: Plugin, url: Option<String>, buffer: Option<String>) -> (config: Config)
        ensures
            config.database_url@ == match url {
                Some(given) => given@,
                None => default_url_spec(plugin),
            },
            config.buffer == match buffer {
                Some(given) => match size_spec(given@) {
                    Some(size) => size,
                    None => DEFAULT_BUFFER_SIZE,
                },
                None => DEFAULT_BUFFER_SIZE,
            },
    {
        let database_url = match url {
            Some(given) => given,
            None => default_url(plugin).to_owned(),
        };
        let buffer: usize = match buffer {
            Some(given) => match parse_size(given.as_str()) {
                Some(size) => size,
                None => DEFAULT_BUFFER_SIZE,
            },
            None => DEFAULT_BUFFER_SIZE,
        };
        Config { database_url, buffer }
    }
}

/// Sizes are read digit by digit: one more digit makes ten times the size and the digit, unless
/// that is too large. A text without digits is no size, a plus sign counts for nothing at the front
/// and nowhere else, and no text that goes on from what is no size is one.
pub proof fn law_size_is_read_digit_by_digit(
    s: &str,
    t: &str,
    c: char,
    r: Option<usize>,
    longer: Option<usize>,
)
    requires
        call_ensures(parse_size, (s,), r),
        call_ensures(parse_size, (t,), longer),
        t@ == s@.push(c),
    ensures
        s@.len() == 0 ==> r is None,
        '0' <= c <= '9' && (s@.len() == 0 || s@ == seq!['+']) ==> longer is Some && longer->0
            == c as int - '0' as int,
        '0' <= c <= '9' && r is Some ==> ({
            let value = 10 * r->0 + (c as int - '0' as int);
            if value <= usize::MAX {
                longer is Some && longer->0 == value
            } else {
                longer is None
            }
        }),
        !('0' <= c <= '9') ==> longer is None,
        r is None && s@.len() > 0 && s@ != seq!['+'] ==> longer is None,
{
    let digits = without_plus(s@);
    let more = without_plus(t@);
    if s@.len() == 0 && c == '+' {
        assert(more =~= Seq::empty());
    } else {
        assert(more =~= digits.push(c));
        assert(more.drop_last() =~= digits);
        assert(more.last() == c);
        if s@.len() == 1 && s@[0] == '+' {
            assert(s@ =~= seq!['+']);
        }
        if all_digits(more) {
            assert forall|i: int| 0 <= i < digits.len() implies is_digit(#[trigger] digits[i]) by {
                assert(digits[i] == more[i]);
            }
        }
        if all_digits(digits) && is_digit(c) {
            assert forall|i: int| 0 <= i < more.len() implies is_digit(#[trigger] more[i]) by {
                if i < digits.len() {
                    assert(more[i] == digits[i]);
                }
            }
        }
        assert(digits_value(Seq::empty()) == 0);
        if digits.len() == 0 {
            assert(digits =~= Seq::empty());
        }
    }
}

/// The settings are those of the variables: the database that one names, and the size that the
/// other gives. Each plugin has a database of its own where none is named, and 1000 items may wait
/// where no size is given, or none that can be read.
pub proof fn law_variables_are_taken(
    plugin: Plugin,
    url: Option<String>,
    buffer: Option<String>,
    config: Config,
    text: &str,
    size: Option<usize>,
)
    requires
        call_ensures(Config::new, (plugin, url, buffer), config),
        buffer matches Some(given) ==> text@ == given@,
        call_ensures(parse_size, (text,), size),
    ensures
        match (url, plugin) {
            (Some(given), _) => config.database_url@ == given@,
            (None, Plugin::Eve) => config.database_url@
                == "sqlite://./output_suricata/eve.db?mode=rwc"@,
            (None, Plugin::Filedata) => config.database_url@
                == "sqlite://./output_suricata/filedata.db?mode=rwc"@,
            (None, Plugin::Rawdata) => config.database_url@
                == "sqlite://./output_suricata/rawdata.db?mode=rwc"@,
        },
        buffer is None ==> config.buffer == 1000,
        buffer is Some && size is Some ==> config.buffer == size->0,
        buffer is Some && size is None ==> config.buffer == 1000,
{
}

} // verus!
