//! Plugin configuration: the lenient `config.toml` reader, the text written
//! back, and the paths of files beside the plugin binary.

use vstd::prelude::*;
use crate::text::{chars_of, string_of, spec_trim, trim, sub_chars, spec_parse_i64, parse_i64,
    chars_eq, push_all, push_str, dec_int, fmt_i64, spec_is_whitespace, lead_ws, trail_ws};

verus! {

pub const DEFAULT_KEYWORD: &'static str = "toggl";

#[derive(Clone, Debug)]
pub struct Config {
    pub token: Option<String>,
    pub wid: Option<i64>,
    pub keyword: String,
}

/// A configuration with its strings taken by their characters.
pub struct ConfigView {
    pub token: Option<Seq<char>>,
    pub wid: Option<i64>,
    pub keyword: Seq<char>,
}

impl View for Config {
    type V = ConfigView;

    open spec fn view(&self) -> ConfigView {
        ConfigView {
            token: match self.token {
                Some(t) => Some(t@),
                None => None,
            },
            wid: self.wid,
            keyword: self.keyword@,
        }
    }
}

/// No token, no workspace and the default keyword.
pub open spec fn default_config() -> ConfigView {
    ConfigView { token: None, wid: None, keyword: "toggl"@ }
}

/// The text split at each line feed (a last segment follows the last one).
pub open spec fn split_lines(s: Seq<char>) -> Seq<Seq<char>>
    decreases s.len(),
{
    if s.len() == 0 {
        seq![Seq::<char>::empty()]
    } else {
        let rest = split_lines(s.drop_last());
        if s.last() == '\n' {
            rest.push(Seq::empty())
        } else {
            rest.update(rest.len() - 1, rest.last().push(s.last()))
        }
    }
}

/// The position of the first `c` in `s`, or its length when there is none.
pub open spec fn first_index(s: Seq<char>, c: char) -> nat
    decreases s.len(),
{
    if s.len() == 0 {
        0
    } else if s[0] == c {
        0
    } else {
        1 + first_index(s.drop_first(), c)
    }
}

/// Whether `c` is a quote character.
pub open spec fn is_quote(c: char) -> bool {
    c == '"' || c == '\''
}

/// Number of leading quote characters.
pub open spec fn lead_quotes(s: Seq<char>) -> nat
    decreases s.len(),
{
    if s.len() > 0 && is_quote(s[0]) {
        1 + lead_quotes(s.drop_first())
    } else {
        0
    }
}

/// Number of trailing quote characters.
pub open spec fn trail_quotes(s: Seq<char>) -> nat
    decreases s.len(),
{
    if s.len() > 0 && is_quote(s.last()) {
        1 + trail_quotes(s.drop_last())
    } else {
        0
    }
}

/// `s` without quote characters at either end.
pub open spec fn strip_quotes(s: Seq<char>) -> Seq<char> {
    let t = s.skip(lead_quotes(s) as int);
    t.take(t.len() - trail_quotes(t))
}

/// What one line does to the configuration. Comments and lines without `=`
/// change nothing; otherwise the key before the first `=` names a setting
/// and its value is what follows, up to any `#`, trimmed and unquoted. An
/// empty token or keyword is ignored; a workspace id that is not a non-zero
/// integer clears the workspace.
pub open spec fn apply_line(c: ConfigView, raw: Seq<char>) -> ConfigView {
    let line = spec_trim(raw);
    let eq = first_index(line, '=');
    if (line.len() > 0 && line[0] == '#') || eq >= line.len() {
        c
    } else {
        let key = spec_trim(line.take(eq as int));
        let rest = line.skip(eq as int + 1);
        let val = strip_quotes(spec_trim(rest.take(first_index(rest, '#') as int)));
        if key == "api_token"@ {
            if val.len() > 0 {
                ConfigView { token: Some(val), ..c }
            } else {
                c
            }
        } else if key == "workspace_id"@ {
            ConfigView {
                wid: match spec_parse_i64(val) {
                    Some(n) => if n != 0 {
                        Some(n as i64)
                    } else {
                        None
                    },
                    None => None,
                },
                ..c
            }
        } else if key == "keyword"@ {
            if val.len() > 0 {
                ConfigView { keyword: val, ..c }
            } else {
                c
            }
        } else {
            c
        }
    }
}

/// The configuration after the given lines, from the defaults.
pub open spec fn config_of(lines: Seq<Seq<char>>) -> ConfigView
    decreases lines.len(),
{
    if lines.len() == 0 {
        default_config()
    } else {
        apply_line(config_of(lines.drop_last()), lines.last())
    }
}

/// The configuration that text `s` describes.
pub open spec fn spec_parse_config(s: Seq<char>) -> ConfigView {
    config_of(split_lines(s))
}

/// The position of the first `c` in `v`, or its length.
fn find_char(v: &Vec<char>, c: char) -> (r: usize)
    ensures
        r == first_index(v@, c),
        r <= v@.len(),
{
    let mut i: usize = 0;
    assert(v@.skip(0) == v@);
    while i < v.len()
        invariant
            i <= v.len(),
            first_index(v@, c) == i + first_index(v@.skip(i as int), c),
        decreases v.len() - i,
    {
        assert(v@.skip(i as int)[0] == v@[i as int]);
        assert(v@.skip(i as int).drop_first() == v@.skip(i + 1));
        if v[i] == c {
            return i;
        }
        i = i + 1;
    }
    i
}

/// `v` without quote characters at either end.
fn strip_quote_chars(v: &Vec<char>) -> (r: Vec<char>)
    ensures
        r@ == strip_quotes(v@),
{
    let ghost s = v@;
    let mut lo: usize = 0;
    assert(s.skip(0) == s);
    while lo < v.len() && (v[lo] == '"' || v[lo] == '\'')
        invariant
            lo <= v.len(),
            lead_quotes(s) == lo + lead_quotes(s.skip(lo as int)),
            s == v@,
        decreases v.len() - lo,
    {
        assert(s.skip(lo as int)[0] == s[lo as int]);
        assert(s.skip(lo as int).drop_first() == s.skip(lo + 1));
        lo = lo + 1;
    }
    assert(lead_quotes(s.skip(lo as int)) == 0) by {
        if lo < v.len() {
            assert(s.skip(lo as int)[0] == s[lo as int]);
        }
    }
    let ghost t = s.skip(lo as int);
    let mut hi: usize = v.len();
    assert(t.take(hi - lo) == t);
    while hi > lo && (v[hi - 1] == '"' || v[hi - 1] == '\'')
        invariant
            lo <= hi <= v.len(),
            t == s.skip(lo as int),
            s == v@,
            trail_quotes(t) == (v.len() - hi) + trail_quotes(t.take(hi - lo)),
        decreases hi,
    {
        assert(t.take(hi - lo).last() == s[hi - 1]);
        assert(t.take(hi - lo).drop_last() == t.take(hi - 1 - lo));
        hi = hi - 1;
    }
    assert(trail_quotes(t.take(hi - lo)) == 0) by {
        if hi > lo {
            assert(t.take(hi - lo).last() == s[hi - 1]);
        }
    }
    assert(t.take(t.len() - trail_quotes(t)) == s.subrange(lo as int, hi as int));
    sub_chars(v, lo, hi)
}

/// Applies one line to the configuration.
fn apply(cfg: &mut Config, raw: &Vec<char>)
    ensures
        final(cfg)@ == apply_line(old(cfg)@, raw@),
{
    let line = trim(raw);
    let eq = find_char(&line, '=');
    if (line.len() > 0 && line[0] == '#') || eq >= line.len() {
        return;
    }
    let key = trim(&sub_chars(&line, 0, eq));
    let rest = sub_chars(&line, eq + 1, line.len());
    assert(rest@ == line@.skip(eq + 1));
    let hash = find_char(&rest, '#');
    let val = strip_quote_chars(&trim(&sub_chars(&rest, 0, hash)));
    if chars_eq(&key, &chars_of("api_token")) {
        if val.len() > 0 {
            cfg.token = Some(string_of(&val));
        }
    } else if chars_eq(&key, &chars_of("workspace_id")) {
        cfg.wid = match parse_i64(&val) {
            Some(n) => if n != 0 {
                Some(n)
            } else {
                None
            },
            None => None,
        };
    } else if chars_eq(&key, &chars_of("keyword")) {
        if val.len() > 0 {
            cfg.keyword = string_of(&val);
        }
    }
}

/// The configuration that `text` describes (defaults where it says nothing);
/// `None` (no readable file) gives the defaults.
pub fn load(text: Option<&str>) -> (r: Config)
    ensures
        r@ == match text {
            Some(t) => spec_parse_config(t@),
            None => default_config(),
        },
{
    let mut cfg = Config { token: None, wid: None, keyword: string_of(&chars_of(DEFAULT_KEYWORD)) };
    let t = match text {
        Some(t) => t,
        None => {
            return cfg;
        },
    };
    let s = chars_of(t);
    let mut cur: Vec<char> = Vec::new();
    let mut i: usize = 0;
    assert(split_lines(s@.take(0)) == seq![Seq::<char>::empty()]);
    assert(split_lines(s@.take(0)).drop_last() =~= Seq::<Seq<char>>::empty());
    while i < s.len()
        invariant
            i <= s.len(),
            split_lines(s@.take(i as int)).len() >= 1,
            cfg@ == config_of(split_lines(s@.take(i as int)).drop_last()),
            cur@ == split_lines(s@.take(i as int)).last(),
        decreases s.len() - i,
    {
        let ghost before = split_lines(s@.take(i as int));
        assert(s@.take(i + 1).drop_last() == s@.take(i as int));
        assert(s@.take(i + 1).last() == s@[i as int]);
        if s[i] == '\n' {
            apply(&mut cfg, &cur);
            assert(split_lines(s@.take(i + 1)) == before.push(Seq::empty()));
            assert(split_lines(s@.take(i + 1)).drop_last() == before);
            assert(before.drop_last().push(before.last()) == before);
            cur = Vec::new();
        } else {
            cur.push(s[i]);
            assert(split_lines(s@.take(i + 1)).drop_last() == before.drop_last());
        }
        i = i + 1;
    }
    apply(&mut cfg, &cur);
    assert(s@.take(s.len() as int) == s@);
    let ghost all = split_lines(s@);
    assert(all.drop_last().push(all.last()) == all);
    cfg
}

/// `base` joined with path `seg` as `PathBuf::push` joins them on Unix: an
/// absolute `seg` replaces `base`, and one `/` separates them.
pub open spec fn path_join(base: Seq<char>, seg: Seq<char>) -> Seq<char> {
    if seg.len() > 0 && seg[0] == '/' {
        seg
    } else if base.len() == 0 || base.last() == '/' {
        base + seg
    } else {
        base + seq!['/'] + seg
    }
}

fn join(base: &Vec<char>, seg: &Vec<char>) -> (r: Vec<char>)
    ensures
        r@ == path_join(base@, seg@),
{
    if seg.len() > 0 && seg[0] == '/' {
        let mut r: Vec<char> = Vec::new();
        push_all(&mut r, seg);
        r
    } else {
        let mut r: Vec<char> = Vec::new();
        push_all(&mut r, base);
        if !(base.len() == 0 || base[base.len() - 1] == '/') {
            r.push('/');
        }
        push_all(&mut r, seg);
        r
    }
}

/// The configuration file beside the plugin binary in `dir`.
pub fn config_path(dir: &str) -> (r: String)
    ensures
        r@ == path_join(dir@, "config.toml"@),
{
    string_of(&join(&chars_of(dir), &chars_of("config.toml")))
}

/// The bundled SVG icon `name` in the `icons` directory beside the plugin
/// binary in `dir`.
pub fn icon(dir: &str, name: &str) -> (r: String)
    ensures
        r@ == path_join(path_join(dir@, "icons"@), name@ + ".svg"@),
{
    let base = join(&chars_of(dir), &chars_of("icons"));
    let mut file = chars_of(name);
    push_str(&mut file, ".svg");
    string_of(&join(&base, &file))
}

/// The text of the configuration file for `token`, `wid` and `keyword`.
pub open spec fn config_text(token: Seq<char>, wid: i64, keyword: Seq<char>) -> Seq<char> {
    "# Toggl Track API configuration\n# Get your API token from: https://track.toggl.com/profile\n\napi_token = \""@
        + token + "\"\nworkspace_id = "@ + dec_int(wid as int) + "\nkeyword = \""@ + keyword + "\"\n"@
}

/// The text to write to the configuration file (with owner-only permissions).
pub fn save_text(token: &str, wid: i64, keyword: &str) -> (r: String)
    ensures
        r@ == config_text(token@, wid, keyword@),
{
    let mut out = chars_of(
        "# Toggl Track API configuration\n# Get your API token from: https://track.toggl.com/profile\n\napi_token = \"",
    );
    push_str(&mut out, token);
    push_str(&mut out, "\"\nworkspace_id = ");
    push_all(&mut out, &fmt_i64(wid));
    push_str(&mut out, "\nkeyword = \"");
    push_str(&mut out, keyword);
    push_str(&mut out, "\"\n");
    string_of(&out)
}


// --- Reading back what was written -------------------------------------------------

/// Whether `c` does not occur in `s`.
pub open spec fn lacks(s: Seq<char>, c: char) -> bool {
    forall|i: int| 0 <= i < s.len() ==> #[trigger] s[i] != c
}

proof fn lemma_split_nonempty(s: Seq<char>)
    ensures
        split_lines(s).len() >= 1,
    decreases s.len(),
{
    if s.len() > 0 {
        lemma_split_nonempty(s.drop_last());
    }
}

proof fn lemma_split_single(s: Seq<char>)
    requires
        lacks(s, '\n'),
    ensures
        split_lines(s) == seq![s],
    decreases s.len(),
{
    if s.len() > 0 {
        let t = s.drop_last();
        assert(lacks(t, '\n')) by {
            assert forall|i: int| 0 <= i < t.len() implies #[trigger] t[i] != '\n' by {
                assert(t[i] == s[i]);
            }
        }
        lemma_split_single(t);
        assert(s.last() == s[s.len() - 1]);
        assert(t.push(s.last()) == s);
    } else {
        assert(s == Seq::<char>::empty());
    }
}

proof fn lemma_split_concat(x: Seq<char>, y: Seq<char>)
    ensures
        split_lines(x + seq!['\n'] + y) == split_lines(x) + split_lines(y),
    decreases y.len(),
{
    let s = x + seq!['\n'] + y;
    lemma_split_nonempty(x);
    if y.len() == 0 {
        assert(s.drop_last() == x);
        assert(s.last() == '\n');
        assert(split_lines(y) == seq![Seq::<char>::empty()]);
    } else {
        let y0 = y.drop_last();
        lemma_split_concat(x, y0);
        lemma_split_nonempty(y0);
        assert(s.drop_last() == x + seq!['\n'] + y0);
        assert(s.last() == y.last());
        assert(y.drop_last() == y0);
        let a = split_lines(x);
        let b = split_lines(y0);
        if y.last() == '\n' {
            assert((a + b).push(Seq::<char>::empty()) == a + b.push(Seq::<char>::empty()));
        } else {
            assert((a + b).update((a + b).len() - 1, (a + b).last().push(y.last())) == a + b.update(
                b.len() - 1,
                b.last().push(y.last()),
            ));
        }
    }
}

proof fn lemma_trim_noop(s: Seq<char>)
    requires
        s.len() > 0,
        !spec_is_whitespace(s[0]),
        !spec_is_whitespace(s.last()),
    ensures
        spec_trim(s) == s,
{
    assert(lead_ws(s) == 0);
    assert(s.skip(0) == s);
    assert(trail_ws(s) == 0);
    assert(s.take(s.len() as int) == s);
}

proof fn lemma_trim_trailing_space(k: Seq<char>)
    requires
        k.len() > 0,
        !spec_is_whitespace(k[0]),
        !spec_is_whitespace(k.last()),
    ensures
        spec_trim(k + seq![' ']) == k,
{
    let s = k + seq![' '];
    assert(s[0] == k[0]);
    assert(lead_ws(s) == 0);
    assert(s.skip(0) == s);
    assert(s.drop_last() == k);
    assert(trail_ws(k) == 0);
    assert(trail_ws(s) == 1);
    assert(s.take(s.len() - 1) == k);
}

proof fn lemma_trim_leading_space(w: Seq<char>)
    requires
        w.len() > 0,
        !spec_is_whitespace(w[0]),
        !spec_is_whitespace(w.last()),
    ensures
        spec_trim(seq![' '] + w) == w,
{
    let s = seq![' '] + w;
    assert(s.drop_first() == w);
    assert(lead_ws(w) == 0);
    assert(lead_ws(s) == 1);
    assert(s.skip(1) == w);
    assert(trail_ws(w) == 0);
    assert(w.take(w.len() as int) == w);
}

proof fn lemma_first_index_absent(s: Seq<char>, c: char)
    requires
        lacks(s, c),
    ensures
        first_index(s, c) == s.len(),
    decreases s.len(),
{
    if s.len() > 0 {
        let t = s.drop_first();
        assert(lacks(t, c)) by {
            assert forall|i: int| 0 <= i < t.len() implies #[trigger] t[i] != c by {
                assert(t[i] == s[i + 1]);
            }
        }
        lemma_first_index_absent(t, c);
    }
}

proof fn lemma_first_index_concat(a: Seq<char>, b: Seq<char>, c: char)
    requires
        lacks(a, c),
    ensures
        first_index(a + b, c) == a.len() + first_index(b, c),
    decreases a.len(),
{
    if a.len() > 0 {
        let t = a.drop_first();
        assert(lacks(t, c)) by {
            assert forall|i: int| 0 <= i < t.len() implies #[trigger] t[i] != c by {
                assert(t[i] == a[i + 1]);
            }
        }
        lemma_first_index_concat(t, b, c);
        assert((a + b).drop_first() == t + b);
        assert((a + b)[0] == a[0]);
    } else {
        assert(a + b == b);
    }
}

proof fn lemma_strip_quoted(t: Seq<char>)
    requires
        t.len() > 0,
        !is_quote(t[0]),
        !is_quote(t.last()),
    ensures
        strip_quotes(seq!['"'] + t + seq!['"']) == t,
{
    let w = seq!['"'] + t + seq!['"'];
    let u = t + seq!['"'];
    assert(w.drop_first() == u);
    assert(u[0] == t[0]);
    assert(lead_quotes(u) == 0);
    assert(lead_quotes(w) == 1);
    assert(w.skip(1) == u);
    assert(u.drop_last() == t);
    assert(trail_quotes(t) == 0);
    assert(trail_quotes(u) == 1);
    assert(u.take(u.len() - 1) == t);
}

proof fn lemma_strip_unquoted(t: Seq<char>)
    requires
        t.len() > 0,
        !is_quote(t[0]),
        !is_quote(t.last()),
    ensures
        strip_quotes(t) == t,
{
    assert(lead_quotes(t) == 0);
    assert(t.skip(0) == t);
    assert(trail_quotes(t) == 0);
    assert(t.take(t.len() as int) == t);
}

/// A `key = value` line: the trimmed key and the trimmed, `#`-free value.
proof fn lemma_setting_line(key: Seq<char>, w: Seq<char>)
    requires
        key.len() > 0,
        key[0] != '#',
        !spec_is_whitespace(key[0]),
        !spec_is_whitespace(key.last()),
        lacks(key, '='),
        w.len() > 0,
        !spec_is_whitespace(w[0]),
        !spec_is_whitespace(w.last()),
        lacks(w, '#'),
    ensures
        ({
            let line = key + seq![' ', '=', ' '] + w;
            let eq = first_index(line, '=');
            let rest = line.skip(eq as int + 1);
            &&& spec_trim(line) == line
            &&& line[0] != '#'
            &&& eq < line.len()
            &&& spec_trim(line.take(eq as int)) == key
            &&& spec_trim(rest.take(first_index(rest, '#') as int)) == w
        }),
{
    let line = key + seq![' ', '=', ' '] + w;
    assert(line[0] == key[0]);
    assert(line.last() == w.last());
    lemma_trim_noop(line);
    assert(line == key + (seq![' ', '=', ' '] + w));
    lemma_first_index_concat(key, seq![' ', '=', ' '] + w, '=');
    let tail = seq![' ', '=', ' '] + w;
    assert(tail[0] == ' ' && tail[1] == '=');
    assert(tail.drop_first()[0] == '=');
    assert(first_index(tail.drop_first(), '=') == 0);
    assert(first_index(tail, '=') == 1);
    let eq = key.len() + 1;
    assert(first_index(line, '=') == eq);
    assert(line.take(eq as int) == key + seq![' ']);
    lemma_trim_trailing_space(key);
    let rest = line.skip(eq as int + 1);
    assert(rest == seq![' '] + w);
    assert(lacks(rest, '#')) by {
        assert forall|i: int| 0 <= i < rest.len() implies #[trigger] rest[i] != '#' by {
            if i > 0 {
                assert(rest[i] == w[i - 1]);
            }
        }
    }
    lemma_first_index_absent(rest, '#');
    assert(rest.take(rest.len() as int) == rest);
    lemma_trim_leading_space(w);
}

/// The lines of a written configuration file.
pub open spec fn written_lines(token: Seq<char>, wid: i64, keyword: Seq<char>) -> Seq<Seq<char>> {
    seq![
        "# Toggl Track API configuration"@,
        "# Get your API token from: https://track.toggl.com/profile"@,
        Seq::empty(),
        "api_token"@ + seq![' ', '=', ' '] + (seq!['"'] + token + seq!['"']),
        "workspace_id"@ + seq![' ', '=', ' '] + dec_int(wid as int),
        "keyword"@ + seq![' ', '=', ' '] + (seq!['"'] + keyword + seq!['"']),
        Seq::empty(),
    ]
}

/// Whether `v` can be written as a quoted value and read back: not empty,
/// on one line, without `#`, and not starting or ending with a quote.
pub open spec fn quotable(v: Seq<char>) -> bool {
    &&& v.len() > 0
    &&& lacks(v, '\n')
    &&& lacks(v, '#')
    &&& !is_quote(v[0])
    &&& !is_quote(v.last())
}

proof fn lemma_written_split(token: Seq<char>, wid: i64, keyword: Seq<char>)
    requires
        lacks(token, '\n'),
        lacks(keyword, '\n'),
    ensures
        split_lines(config_text(token, wid, keyword)) == written_lines(token, wid, keyword),
{
    reveal_strlit(
        "# Toggl Track API configuration\n# Get your API token from: https://track.toggl.com/profile\n\napi_token = \"",
    );
    reveal_strlit("\"\nworkspace_id = ");
    reveal_strlit("\nkeyword = \"");
    reveal_strlit("\"\n");
    reveal_strlit("# Toggl Track API configuration");
    reveal_strlit("# Get your API token from: https://track.toggl.com/profile");
    reveal_strlit("api_token");
    reveal_strlit("workspace_id");
    reveal_strlit("keyword");
    let l = written_lines(token, wid, keyword);
    let nl = seq!['\n'];
    let e = Seq::<char>::empty();
    crate::text::law_parse_reads_decimal(wid);
    let r6 = l[5] + nl + e;
    let r5 = l[4] + nl + r6;
    let r4 = l[3] + nl + r5;
    let r3 = e + nl + r4;
    let r2 = l[1] + nl + r3;
    let text = l[0] + nl + r2;
    assert(config_text(token, wid, keyword) =~= text);
    assert forall|k: int| 0 <= k < 7 implies lacks(#[trigger] l[k], '\n') by {
        if k == 3 {
            assert forall|i: int| 0 <= i < l[3].len() implies #[trigger] l[3][i] != '\n' by {
                if 13 <= i < l[3].len() - 1 {
                    assert(l[3][i] == token[i - 13]);
                }
            }
        } else if k == 4 {
            let d = dec_int(wid as int);
            if wid < 0 {
                crate::text::lemma_dec_nat((-(wid as int)) as nat);
                assert(d == seq!['-'] + crate::text::dec_nat((-(wid as int)) as nat));
            } else {
                crate::text::lemma_dec_nat(wid as nat);
            }
            assert forall|i: int| 0 <= i < d.len() implies #[trigger] d[i] != '\n' by {
                if wid < 0 && i > 0 {
                    assert(d[i] == crate::text::dec_nat((-(wid as int)) as nat)[i - 1]);
                }
            }
            assert forall|i: int| 0 <= i < l[4].len() implies #[trigger] l[4][i] != '\n' by {
                if i >= 15 {
                    assert(l[4][i] == d[i - 15]);
                }
            }
        } else if k == 5 {
            assert forall|i: int| 0 <= i < l[5].len() implies #[trigger] l[5][i] != '\n' by {
                if 11 <= i < l[5].len() - 1 {
                    assert(l[5][i] == keyword[i - 11]);
                }
            }
        }
    }
    lemma_split_single(e);
    assert forall|k: int| 0 <= k < 7 implies split_lines(#[trigger] l[k]) == seq![l[k]] by {
        lemma_split_single(l[k]);
    }
    assert(split_lines(l[0]) == seq![l[0]]);
    assert(split_lines(l[1]) == seq![l[1]]);
    assert(split_lines(l[3]) == seq![l[3]]);
    assert(split_lines(l[4]) == seq![l[4]]);
    assert(split_lines(l[5]) == seq![l[5]]);
    lemma_split_concat(l[5], e);
    lemma_split_concat(l[4], r6);
    lemma_split_concat(l[3], r5);
    lemma_split_concat(e, r4);
    lemma_split_concat(l[1], r3);
    lemma_split_concat(l[0], r2);
    assert(split_lines(text) =~= l);
}


proof fn lemma_dec_int_shape(n: i64)
    ensures
        dec_int(n as int).len() > 0,
        lacks(dec_int(n as int), '#'),
        !spec_is_whitespace(dec_int(n as int)[0]),
        !spec_is_whitespace(dec_int(n as int).last()),
        !is_quote(dec_int(n as int)[0]),
        !is_quote(dec_int(n as int).last()),
{
    let d = dec_int(n as int);
    if n < 0 {
        let m = (-(n as int)) as nat;
        crate::text::lemma_dec_nat(m);
        assert(d == seq!['-'] + crate::text::dec_nat(m));
        assert(d.last() == crate::text::dec_nat(m).last());
        assert(crate::text::is_digit(crate::text::dec_nat(m)[crate::text::dec_nat(m).len() - 1]));
        assert forall|i: int| 0 <= i < d.len() implies #[trigger] d[i] != '#' by {
            if i > 0 {
                assert(d[i] == crate::text::dec_nat(m)[i - 1]);
                assert(crate::text::is_digit(crate::text::dec_nat(m)[i - 1]));
            }
        }
    } else {
        crate::text::lemma_dec_nat(n as nat);
        assert(crate::text::is_digit(d[0]));
        assert(crate::text::is_digit(d[d.len() - 1]));
        assert forall|i: int| 0 <= i < d.len() implies #[trigger] d[i] != '#' by {
            assert(crate::text::is_digit(d[i]));
        }
    }
}

proof fn lemma_comment_lines(c: ConfigView)
    ensures
        apply_line(c, "# Toggl Track API configuration"@) == c,
        apply_line(c, "# Get your API token from: https://track.toggl.com/profile"@) == c,
        apply_line(c, Seq::<char>::empty()) == c,
{
    reveal_strlit("# Toggl Track API configuration");
    reveal_strlit("# Get your API token from: https://track.toggl.com/profile");
    lemma_trim_noop("# Toggl Track API configuration"@);
    lemma_trim_noop("# Get your API token from: https://track.toggl.com/profile"@);
    assert(Seq::<char>::empty().skip(0) == Seq::<char>::empty());
    assert(Seq::<char>::empty().take(0) == Seq::<char>::empty());
}

proof fn lemma_token_line(c: ConfigView, token: Seq<char>)
    requires
        quotable(token),
    ensures
        apply_line(c, "api_token"@ + seq![' ', '=', ' '] + (seq!['"'] + token + seq!['"'])) == (ConfigView {
            token: Some(token),
            ..c
        }),
{
    reveal_strlit("api_token");
    let w = seq!['"'] + token + seq!['"'];
    assert forall|i: int| 0 <= i < w.len() implies #[trigger] w[i] != '#' by {
        if 0 < i < w.len() - 1 {
            assert(w[i] == token[i - 1]);
        }
    }
    assert(lacks("api_token"@, '='));
    lemma_setting_line("api_token"@, w);
    lemma_strip_quoted(token);
}

proof fn lemma_keyword_line(c: ConfigView, keyword: Seq<char>)
    requires
        quotable(keyword),
    ensures
        apply_line(c, "keyword"@ + seq![' ', '=', ' '] + (seq!['"'] + keyword + seq!['"'])) == (ConfigView {
            keyword,
            ..c
        }),
{
    reveal_strlit("keyword");
    reveal_strlit("api_token");
    reveal_strlit("workspace_id");
    let w = seq!['"'] + keyword + seq!['"'];
    assert forall|i: int| 0 <= i < w.len() implies #[trigger] w[i] != '#' by {
        if 0 < i < w.len() - 1 {
            assert(w[i] == keyword[i - 1]);
        }
    }
    assert(lacks("keyword"@, '='));
    lemma_setting_line("keyword"@, w);
    lemma_strip_quoted(keyword);
    assert("keyword"@ != "api_token"@);
    assert("keyword"@ != "workspace_id"@);
}

proof fn lemma_workspace_line(c: ConfigView, wid: i64)
    ensures
        apply_line(c, "workspace_id"@ + seq![' ', '=', ' '] + dec_int(wid as int)) == (ConfigView {
            wid: if wid != 0 {
                Some(wid)
            } else {
                None
            },
            ..c
        }),
{
    reveal_strlit("workspace_id");
    reveal_strlit("api_token");
    let d = dec_int(wid as int);
    lemma_dec_int_shape(wid);
    assert(lacks("workspace_id"@, '='));
    lemma_setting_line("workspace_id"@, d);
    lemma_strip_unquoted(d);
    crate::text::law_parse_reads_decimal(wid);
    assert("workspace_id"@ != "api_token"@);
}

proof fn lemma_fold_step(l: Seq<Seq<char>>, k: int)
    requires
        0 <= k < l.len(),
    ensures
        config_of(l.take(k + 1)) == apply_line(config_of(l.take(k)), l[k]),
{
    assert(l.take(k + 1).drop_last() == l.take(k));
    assert(l.take(k + 1).last() == l[k]);
}

/// Reading back a written configuration file gives the values written: the
/// token and the keyword (each non-empty, on one line, without `#`, not
/// starting or ending with a quote) and the workspace, which reads as unset
/// when it is 0.
pub proof fn law_save_then_load(token: Seq<char>, wid: i64, keyword: Seq<char>)
    requires
        quotable(token),
        quotable(keyword),
    ensures
        spec_parse_config(config_text(token, wid, keyword)) == (ConfigView {
            token: Some(token),
            wid: if wid != 0 {
                Some(wid)
            } else {
                None
            },
            keyword,
        }),
{
    lemma_written_split(token, wid, keyword);
    let l = written_lines(token, wid, keyword);
    let c0 = default_config();
    lemma_comment_lines(c0);
    let c3 = ConfigView { token: Some(token), ..c0 };
    lemma_token_line(c0, token);
    let c4 = ConfigView {
        wid: if wid != 0 {
            Some(wid)
        } else {
            None
        },
        ..c3
    };
    lemma_workspace_line(c3, wid);
    let c5 = ConfigView { keyword, ..c4 };
    lemma_keyword_line(c4, keyword);
    lemma_comment_lines(c5);
    assert(l.take(0) == Seq::<Seq<char>>::empty());
    lemma_fold_step(l, 0);
    assert(config_of(l.take(1)) == c0);
    lemma_fold_step(l, 1);
    assert(config_of(l.take(2)) == c0);
    lemma_fold_step(l, 2);
    assert(config_of(l.take(3)) == c0);
    lemma_fold_step(l, 3);
    assert(config_of(l.take(4)) == c3);
    lemma_fold_step(l, 4);
    assert(config_of(l.take(5)) == c4);
    lemma_fold_step(l, 5);
    assert(config_of(l.take(6)) == c5);
    lemma_fold_step(l, 6);
    assert(config_of(l.take(7)) == c5);
    assert(l.take(7) == l);
    assert(config_of(l) == c5);
}

/// Lines that set nothing leave the configuration as it is: a comment, and
/// a line without `=`.
pub proof fn law_config_lines(c: ConfigView, raw: Seq<char>)
    ensures
        (spec_trim(raw).len() > 0 && spec_trim(raw)[0] == '#') ==> apply_line(c, raw) == c,
        lacks(raw, '=') ==> apply_line(c, raw) == c,
{
    if lacks(raw, '=') {
        let line = spec_trim(raw);
        crate::text::lemma_lead_ws_bound(raw);
        let t = raw.skip(lead_ws(raw) as int);
        crate::text::lemma_trail_ws_bound(t);
        assert(lacks(line, '=')) by {
            assert forall|i: int| 0 <= i < line.len() implies #[trigger] line[i] != '=' by {
                assert(line[i] == t[i]);
                assert(t[i] == raw[i + lead_ws(raw)]);
            }
        }
        lemma_first_index_absent(line, '=');
    }
}

} // verus!
