//! The configuration file: `key=value` lines for verbose logging, the
//! history limit and the hotkey combo. Unknown keys, lines without `=` and
//! values that do not parse are ignored; the other keys still apply.

use vstd::prelude::*;
use vstd::string::StringExecFns;

use crate::clipboard::clamp_limit;
use crate::text::{
    char_pos, collect_range, decimal, find_char, lemma_char_pos, lemma_decimal_digits,
    parse_usize, parse_usize_spec, push_decimal, range_equals, to_chars, trim, trim_bounds,
    trim_end, trim_start, is_ws, is_digit, lemma_char_pos_range,
};

verus! {

broadcast use vstd::string::group_string_axioms;

/// The history limit when none is configured.
pub const DEFAULT_MAX_HISTORY: usize = 10;

/// The smallest accepted history limit.
pub const MIN_MAX_HISTORY: usize = 1;

/// The largest accepted history limit.
pub const MAX_MAX_HISTORY: usize = 50;

/// The application settings.
pub struct Config {
    pub verbose_logging: bool,
    pub max_history: usize,
    pub hotkey: String,
}

/// The abstract content of a `Config`.
pub struct ConfigView {
    pub verbose_logging: bool,
    pub max_history: int,
    pub hotkey: Seq<char>,
}

impl View for Config {
    type V = ConfigView;

    open spec fn view(&self) -> ConfigView {
        ConfigView {
            verbose_logging: self.verbose_logging,
            max_history: self.max_history as int,
            hotkey: self.hotkey@,
        }
    }
}

/// The settings used when there is no configuration file: quiet logging,
/// ten history items and Option+V.
pub open spec fn default_view() -> ConfigView {
    ConfigView {
        verbose_logging: false,
        max_history: DEFAULT_MAX_HISTORY as int,
        hotkey: "alt+v"@,
    }
}

/// The effect of one line of the configuration file.
pub open spec fn apply_line(c: ConfigView, line: Seq<char>) -> ConfigView {
    let e = char_pos(line, '=');
    if e >= line.len() {
        c
    } else {
        let key = trim(line.take(e));
        let value = trim(line.skip(e + 1));
        if key == "verbose_logging"@ {
            if value == "true"@ {
                ConfigView { verbose_logging: true, ..c }
            } else if value == "false"@ {
                ConfigView { verbose_logging: false, ..c }
            } else {
                c
            }
        } else if key == "max_history"@ {
            match parse_usize_spec(value) {
                Some(n) => ConfigView { max_history: clamp_limit(n), ..c },
                None => c,
            }
        } else if key == "hotkey"@ {
            ConfigView { hotkey: value, ..c }
        } else {
            c
        }
    }
}

/// The effect of the lines of `s`, applied in order to `c`.
pub open spec fn parse_lines(c: ConfigView, s: Seq<char>) -> ConfigView
    decreases s.len(),
{
    let i = char_pos(s, '\n');
    proof {
        lemma_char_pos_range(s, '\n');
    }
    if i >= s.len() {
        apply_line(c, s)
    } else {
        parse_lines(apply_line(c, s.take(i)), s.skip(i + 1))
    }
}

/// The settings a configuration file holds.
pub open spec fn parse_spec(contents: Seq<char>) -> ConfigView {
    parse_lines(default_view(), contents)
}

/// The text of a boolean, as `bool`'s `Display` writes it.
pub open spec fn bool_text(b: bool) -> Seq<char> {
    if b {
        "true"@
    } else {
        "false"@
    }
}

/// The configuration file that holds `c`.
pub open spec fn render_spec(c: ConfigView) -> Seq<char> {
    "verbose_logging="@ + bool_text(c.verbose_logging) + "\nmax_history="@ + decimal(
        c.max_history as nat,
    ) + "\nhotkey="@ + c.hotkey + "\n"@
}

impl Default for Config {
    /// The settings used when there is no configuration file.
    fn default() -> (c: Config)
        ensures
            c@ == default_view(),
    {
        Config {
            verbose_logging: false,
            max_history: DEFAULT_MAX_HISTORY,
            hotkey: String::from_str("alt+v"),
        }
    }
}

/// The settings from the configuration file's contents, or the defaults
/// when the file could not be read.
pub fn load(contents: Option<&str>) -> (c: Config)
    ensures
        c@ == match contents {
            Some(s) => parse_spec(s@),
            None => default_view(),
        },
{
    match contents {
        Some(s) => parse(s),
        None => Config::default(),
    }
}

/// Reads the settings from a configuration file's contents, starting from
/// the defaults.
pub fn parse(contents: &str) -> (c: Config)
    ensures
        c@ == parse_spec(contents@),
{
    let v = to_chars(contents);
    let n = v.len();
    let mut cfg = Config::default();
    let mut pos: usize = 0;
    proof {
        assert(v@.subrange(0, n as int) =~= contents@);
    }
    loop
        invariant
            v@ == contents@,
            n == v@.len(),
            pos <= n,
            parse_spec(contents@) == parse_lines(cfg@, v@.subrange(pos as int, n as int)),
        decreases n - pos,
    {
        let nl = find_char(&v, pos, n, '\n');
        let ghost s = v@.subrange(pos as int, n as int);
        apply_line_exec(&mut cfg, &v, pos, nl);
        if nl == n {
            proof {
                assert(s =~= v@.subrange(pos as int, nl as int));
            }
            return cfg;
        }
        proof {
            assert(s.take(nl - pos) =~= v@.subrange(pos as int, nl as int));
            assert(s.skip(nl - pos + 1) =~= v@.subrange(nl + 1, n as int));
        }
        pos = nl + 1;
    }
}

/// Applies the line `v[lo..hi]` to `cfg`.
fn apply_line_exec(cfg: &mut Config, v: &Vec<char>, lo: usize, hi: usize)
    requires
        lo <= hi <= v@.len(),
    ensures
        final(cfg)@ == apply_line(old(cfg)@, v@.subrange(lo as int, hi as int)),
{
    let ghost line = v@.subrange(lo as int, hi as int);
    let e = find_char(v, lo, hi, '=');
    if e == hi {
        return;
    }
    let (klo, khi) = trim_bounds(v, lo, e);
    let (vlo, vhi) = trim_bounds(v, e + 1, hi);
    proof {
        assert(line.take(e - lo) =~= v@.subrange(lo as int, e as int));
        assert(line.skip(e - lo + 1) =~= v@.subrange(e + 1, hi as int));
    }
    if range_equals(v, klo, khi, "verbose_logging") {
        if range_equals(v, vlo, vhi, "true") {
            cfg.verbose_logging = true;
        } else if range_equals(v, vlo, vhi, "false") {
            cfg.verbose_logging = false;
        }
    } else if range_equals(v, klo, khi, "max_history") {
        match parse_usize(v, vlo, vhi) {
            Some(n) => {
                cfg.max_history = if n < MIN_MAX_HISTORY {
                    MIN_MAX_HISTORY
                } else if n > MAX_MAX_HISTORY {
                    MAX_MAX_HISTORY
                } else {
                    n
                };
            },
            None => {},
        }
    } else if range_equals(v, klo, khi, "hotkey") {
        cfg.hotkey = collect_range(v, vlo, vhi);
    }
}

/// The history limit entered in the settings dialog, clamped to the
/// accepted range.
pub fn history_limit_from_field(value: isize) -> (r: usize)
    ensures
        r as int == clamp_limit(value as int),
{
    if value < MIN_MAX_HISTORY as isize {
        MIN_MAX_HISTORY
    } else if value > MAX_MAX_HISTORY as isize {
        MAX_MAX_HISTORY
    } else {
        value as usize
    }
}

/// The configuration file that holds `cfg`.
pub fn render(cfg: &Config) -> (r: String)
    ensures
        r@ == render_spec(cfg@),
{
    let mut r = String::from_str("verbose_logging=");
    if cfg.verbose_logging {
        r.append("true");
    } else {
        r.append("false");
    }
    r.append("\nmax_history=");
    push_decimal(&mut r, cfg.max_history as u64);
    r.append("\nhotkey=");
    r.append(cfg.hotkey.as_str());
    r.append("\n");
    r
}

/// A string that neither starts nor ends with whitespace is its own trim.
proof fn lemma_trim_id(s: Seq<char>)
    requires
        s.len() > 0,
        !is_ws(s[0]),
        !is_ws(s.last()),
    ensures
        trim(s) == s,
{
    assert(trim_start(s) == s);
    assert(trim_end(s) == s);
}

/// A line followed by a line break is applied before the rest.
proof fn lemma_lines_step(c: ConfigView, line: Seq<char>, rest: Seq<char>)
    requires
        !line.contains('\n'),
    ensures
        parse_lines(c, line + seq!['\n'] + rest) == parse_lines(apply_line(c, line), rest),
{
    let s = line + seq!['\n'] + rest;
    assert forall|k: int| 0 <= k < line.len() implies s[k] != '\n' by {
        assert(s[k] == line[k]);
    };
    lemma_char_pos(s, '\n', line.len() as int);
    assert(s.take(line.len() as int) =~= line);
    assert(s.skip(line.len() as int + 1) =~= rest);
}

/// How a line `key=value` is applied, for a key without `=` that is its
/// own trim.
proof fn lemma_key_value(c: ConfigView, key: Seq<char>, value: Seq<char>)
    requires
        !key.contains('='),
        key.len() > 0,
        !is_ws(key[0]),
        !is_ws(key.last()),
    ensures
        ({
            let line = key + seq!['='] + value;
            &&& char_pos(line, '=') == key.len()
            &&& trim(line.take(key.len() as int)) == key
            &&& trim(line.skip(key.len() as int + 1)) == trim(value)
        }),
{
    let line = key + seq!['='] + value;
    assert forall|k: int| 0 <= k < key.len() implies line[k] != '=' by {
        assert(line[k] == key[k]);
    };
    lemma_char_pos(line, '=', key.len() as int);
    assert(line.take(key.len() as int) =~= key);
    assert(line.skip(key.len() as int + 1) =~= value);
    lemma_trim_id(key);
}

/// Reading back the file that `render` writes gives the same settings, with
/// the history limit clamped to the accepted range and the hotkey trimmed.
/// (A hotkey holding a line break would be read back as two lines.)
pub proof fn lemma_render_then_parse(c: ConfigView)
    requires
        !c.hotkey.contains('\n'),
        0 <= c.max_history <= usize::MAX,
    ensures
        parse_spec(render_spec(c)) == (ConfigView {
            verbose_logging: c.verbose_logging,
            max_history: clamp_limit(c.max_history),
            hotkey: trim(c.hotkey),
        }),
{
    reveal_strlit("verbose_logging=");
    reveal_strlit("\nmax_history=");
    reveal_strlit("\nhotkey=");
    reveal_strlit("\n");
    reveal_strlit("true");
    reveal_strlit("false");
    reveal_strlit("verbose_logging");
    reveal_strlit("max_history");
    reveal_strlit("hotkey");
    let b = bool_text(c.verbose_logging);
    let d = decimal(c.max_history as nat);
    lemma_decimal_digits(c.max_history as nat);
    let k1 = "verbose_logging"@;
    let k2 = "max_history"@;
    let k3 = "hotkey"@;
    let l1 = k1 + seq!['='] + b;
    let l2 = k2 + seq!['='] + d;
    let l3 = k3 + seq!['='] + c.hotkey;
    assert(render_spec(c) =~= l1 + seq!['\n'] + (l2 + seq!['\n'] + (l3 + seq!['\n']
        + Seq::<char>::empty())));
    assert(!l1.contains('\n')) by {
        assert forall|k: int| 0 <= k < l1.len() implies l1[k] != '\n' by {
            if k < k1.len() + 1 {
            } else {
                assert(l1[k] == b[k - k1.len() - 1]);
            }
        };
    };
    assert(!l2.contains('\n')) by {
        assert forall|k: int| 0 <= k < l2.len() implies l2[k] != '\n' by {
            if k < k2.len() + 1 {
            } else {
                assert(l2[k] == d[k - k2.len() - 1]);
                assert(is_digit(d[k - k2.len() - 1]));
            }
        };
    };
    assert(!l3.contains('\n')) by {
        assert forall|k: int| 0 <= k < l3.len() implies l3[k] != '\n' by {
            if k < k3.len() + 1 {
            } else {
                assert(l3[k] == c.hotkey[k - k3.len() - 1]);
            }
        };
    };
    let c0 = default_view();
    lemma_lines_step(c0, l1, l2 + seq!['\n'] + (l3 + seq!['\n'] + Seq::<char>::empty()));
    let c1 = apply_line(c0, l1);
    lemma_lines_step(c1, l2, l3 + seq!['\n'] + Seq::<char>::empty());
    let c2 = apply_line(c1, l2);
    lemma_lines_step(c2, l3, Seq::<char>::empty());
    let c3 = apply_line(c2, l3);
    lemma_key_value(c0, k1, b);
    lemma_trim_id(b);
    lemma_key_value(c1, k2, d);
    assert(is_digit(d[0]) && is_digit(d.last()));
    lemma_trim_id(d);
    assert(parse_usize_spec(d) == Some(c.max_history));
    lemma_key_value(c2, k3, c.hotkey);
    assert(c1 == ConfigView { verbose_logging: c.verbose_logging, ..c0 });
    assert(c2 == ConfigView { max_history: clamp_limit(c.max_history), ..c1 });
    assert(c3 == ConfigView { hotkey: trim(c.hotkey), ..c2 });
    assert(char_pos(Seq::<char>::empty(), '\n') == 0);
    assert(parse_lines(c3, Seq::<char>::empty()) == c3);
}

} // verus!
