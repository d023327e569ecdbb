//! What the settings keep when they are written and read again.

use crate::config;
use crate::config::{Config, ConfigError, ConfigKey, EnvChange, FormView};
use crate::decimal;
use crate::rotation_law;
use crate::text;
use crate::text_law;
use vstd::prelude::*;

verus! {

/// A row without white space at its ends is its own trim.
pub proof fn lemma_trim_fixed(s: Seq<char>)
    requires
        s.len() > 0 ==> !text::is_white(s[0]) && !text::is_white(s.last()),
    ensures
        text::trim(s) == s,
{
}

/// What is left of a trim has no white space at its ends.
pub proof fn lemma_trim_ends(s: Seq<char>)
    ensures
        ({
            let t = text::trim(s);
            t.len() > 0 ==> !text::is_white(t[0]) && !text::is_white(t.last())
        }),
{
    lemma_trim_start_end(s);
    lemma_trim_end_end(text::trim_start(s));
}

proof fn lemma_trim_start_end(s: Seq<char>)
    ensures
        text::trim_start(s).len() > 0 ==> !text::is_white(text::trim_start(s)[0]),
    decreases s.len(),
{
    if s.len() > 0 && text::is_white(s[0]) {
        lemma_trim_start_end(s.drop_first());
    }
}

proof fn lemma_trim_end_end(s: Seq<char>)
    ensures
        text::trim_end(s).len() > 0 ==> !text::is_white(text::trim_end(s).last())
            && text::trim_end(s)[0] == s[0],
        text::trim_end(s).len() <= s.len(),
        forall|i: int| 0 <= i < text::trim_end(s).len() ==> #[trigger] text::trim_end(s)[i] == s[i],
    decreases s.len(),
{
    if s.len() > 0 && text::is_white(s.last()) {
        lemma_trim_end_end(s.drop_last());
        assert forall|i: int| 0 <= i < text::trim_end(s).len() implies #[trigger] text::trim_end(
            s,
        )[i] == s[i] by {
            assert(text::trim_end(s.drop_last())[i] == s.drop_last()[i]);
        }
    }
}

/// Replacing a single character goes character by character.
proof fn lemma_replace_char(s: Seq<char>, c: char, with: Seq<char>)
    requires
        s.len() > 0,
    ensures
        text::replace(s, seq![c], with) == (if s[0] == c {
            with
        } else {
            seq![s[0]]
        }) + text::replace(s.drop_first(), seq![c], with),
{
    let pattern = seq![c];
    assert(s.subrange(0, 1) =~= seq![s[0]]);
    if s[0] == c {
        assert(text::occurs_at(s, pattern, 0));
        assert(s.skip(1) =~= s.drop_first());
    } else {
        assert(pattern[0] == c);
        assert(seq![s[0]][0] == s[0]);
        assert(!text::occurs_at(s, pattern, 0));
    }
}

/// Replacing a single character in two parts.
proof fn lemma_replace_char_concat(a: Seq<char>, b: Seq<char>, c: char, with: Seq<char>)
    ensures
        text::replace(a + b, seq![c], with) == text::replace(a, seq![c], with) + text::replace(
            b,
            seq![c],
            with,
        ),
    decreases a.len(),
{
    if a.len() == 0 {
        assert(a + b =~= b);
        assert(text::replace(a, seq![c], with) =~= Seq::<char>::empty());
        assert(text::replace(a, seq![c], with) + text::replace(b, seq![c], with) =~= text::replace(
            b,
            seq![c],
            with,
        ));
    } else {
        lemma_replace_char(a + b, c, with);
        lemma_replace_char(a, c, with);
        assert((a + b).drop_first() =~= a.drop_first() + b);
        lemma_replace_char_concat(a.drop_first(), b, c, with);
        assert(text::replace(a + b, seq![c], with) =~= text::replace(a, seq![c], with)
            + text::replace(b, seq![c], with));
    }
}

/// How one character is escaped.
spec fn escape_of(c: char) -> Seq<char> {
    if c == '\\' {
        seq!['\\', '\\']
    } else if c == '"' {
        seq!['\\', '"']
    } else {
        seq![c]
    }
}

proof fn lemma_escaped_step(s: Seq<char>)
    requires
        s.len() > 0,
    ensures
        config::escaped(s) == escape_of(s[0]) + config::escaped(s.drop_first()),
{
    let slash = seq!['\\'];
    let two = seq!['\\', '\\'];
    let quote = seq!['"'];
    let marked = seq!['\\', '"'];
    let rest = text::replace(s.drop_first(), slash, two);
    lemma_replace_char(s, '\\', two);
    let head = if s[0] == '\\' {
        two
    } else {
        seq![s[0]]
    };
    lemma_replace_char_concat(head, rest, '"', marked);
    lemma_replace_char(head, '"', marked);
    if s[0] == '\\' {
        assert(head.drop_first() =~= slash);
        lemma_replace_char(slash, '"', marked);
        assert(slash.drop_first() =~= Seq::<char>::empty());
        assert(text::replace(head, quote, marked) =~= two);
    } else {
        assert(head.drop_first() =~= Seq::<char>::empty());
        assert(text::replace(head, quote, marked) =~= escape_of(s[0]));
    }
}

/// An escaped text does not start with a double quote.
proof fn lemma_escaped_start(s: Seq<char>)
    ensures
        config::escaped(s).len() > 0 ==> config::escaped(s)[0] != '"',
{
    if s.len() > 0 {
        lemma_escaped_step(s);
    } else {
        assert(text::replace(s, seq!['\\'], seq!['\\', '\\']) =~= s);
    }
}

/// Taking the marks of the double quotes away leaves the doubled backslashes.
proof fn lemma_unmark(s: Seq<char>)
    ensures
        text::replace(config::escaped(s), seq!['\\', '"'], seq!['"']) == text::replace(
            s,
            seq!['\\'],
            seq!['\\', '\\'],
        ),
    decreases s.len(),
{
    let marked = seq!['\\', '"'];
    let quote = seq!['"'];
    let two = seq!['\\', '\\'];
    let e = config::escaped(s);
    if s.len() == 0 {
        assert(e =~= Seq::<char>::empty());
    } else {
        let rest = s.drop_first();
        let t = config::escaped(rest);
        lemma_escaped_step(s);
        lemma_unmark(rest);
        lemma_replace_char(s, '\\', two);
        if s[0] == '\\' {
            lemma_escaped_start(rest);
            assert(!text::occurs_at(e, marked, 0)) by {
                if text::occurs_at(e, marked, 0) {
                    assert(e.subrange(0, 2)[1] == marked[1]);
                    assert(e[1] == '\\');
                }
            }
            let tail = e.drop_first();
            assert(tail =~= seq!['\\'] + t);
            assert(!text::occurs_at(tail, marked, 0)) by {
                if text::occurs_at(tail, marked, 0) {
                    assert(tail.subrange(0, 2)[1] == marked[1]);
                    assert(tail[1] == t[0]);
                }
            }
            assert(tail.drop_first() =~= t);
            assert(e[0] == '\\' && tail[0] == '\\');
            assert(text::replace(tail, marked, quote) == seq!['\\'] + text::replace(
                t,
                marked,
                quote,
            ));
            assert(text::replace(e, marked, quote) == seq!['\\'] + text::replace(
                tail,
                marked,
                quote,
            ));
            assert(text::replace(e, marked, quote) =~= two + text::replace(t, marked, quote));
        } else if s[0] == '"' {
            assert(e.subrange(0, 2) =~= marked);
            assert(text::occurs_at(e, marked, 0));
            assert(e.skip(2) =~= t);
        } else {
            assert(e[0] == s[0]);
            assert(!text::occurs_at(e, marked, 0)) by {
                if text::occurs_at(e, marked, 0) {
                    assert(e.subrange(0, 2)[0] == marked[0]);
                }
            }
            assert(e.drop_first() =~= t);
        }
    }
}

/// Doubled backslashes become single ones again.
proof fn lemma_undouble(s: Seq<char>)
    ensures
        text::replace(
            text::replace(s, seq!['\\'], seq!['\\', '\\']),
            seq!['\\', '\\'],
            seq!['\\'],
        ) == s,
    decreases s.len(),
{
    let two = seq!['\\', '\\'];
    let slash = seq!['\\'];
    let d = text::replace(s, slash, two);
    if s.len() > 0 {
        let rest = s.drop_first();
        let t = text::replace(rest, slash, two);
        lemma_replace_char(s, '\\', two);
        lemma_undouble(rest);
        if s[0] == '\\' {
            assert(d.subrange(0, 2) =~= two);
            assert(text::occurs_at(d, two, 0));
            assert(d.skip(2) =~= t);
            assert(slash + rest =~= s);
        } else {
            assert(d[0] == s[0]);
            assert(!text::occurs_at(d, two, 0)) by {
                if text::occurs_at(d, two, 0) {
                    assert(d.subrange(0, 2)[0] == two[0]);
                }
            }
            assert(d.drop_first() =~= t);
            assert(seq![s[0]] + rest =~= s);
        }
    }
}

/// Taking the escapes away undoes escaping, whatever the value holds.
pub proof fn law_unescape_undoes_escape(value: Seq<char>)
    ensures
        config::unescaped(config::escaped(value)) == value,
{
    lemma_unmark(value);
    lemma_undouble(value);
}

/// A text without a separator is one piece.
proof fn lemma_split_whole(s: Seq<char>, separators: Seq<char>)
    requires
        forall|i: int| 0 <= i < s.len() ==> !separators.contains(#[trigger] s[i]),
    ensures
        text::split(s, separators) == seq![s],
    decreases s.len(),
{
    if s.len() == 0 {
        assert(s =~= Seq::<char>::empty());
    } else {
        let front = s.drop_last();
        assert forall|i: int| 0 <= i < front.len() implies !separators.contains(
            #[trigger] front[i],
        ) by {
            assert(front[i] == s[i]);
        }
        lemma_split_whole(front, separators);
        assert(!separators.contains(s[s.len() - 1]));
        assert(front.push(s.last()) =~= s);
        assert(text::split(s, separators) =~= seq![s]);
    }
}

/// The first line of a text.
proof fn lemma_split_line(line: Seq<char>, rest: Seq<char>)
    requires
        !line.contains('\n'),
    ensures
        text::split(line + seq!['\n'] + rest, seq!['\n']) == seq![line] + text::split(
            rest,
            seq!['\n'],
        ),
    decreases rest.len(),
{
    let nl = seq!['\n'];
    let all = line + nl + rest;
    assert(nl[0] == '\n');
    assert(nl.contains('\n'));
    if rest.len() == 0 {
        assert forall|i: int| 0 <= i < line.len() implies !nl.contains(#[trigger] line[i]) by {
            assert(line.contains(line[i]));
        }
        lemma_split_whole(line, nl);
        assert(all.drop_last() =~= line);
        assert(all.last() == '\n');
        assert(rest =~= Seq::<char>::empty());
        assert(text::split(all, nl) =~= seq![line] + text::split(rest, nl));
    } else {
        let front = rest.drop_last();
        lemma_split_line(line, front);
        assert(all.drop_last() =~= line + nl + front);
        assert(all.last() == rest.last());
        let head = seq![line];
        let pieces = text::split(front, nl);
        lemma_split_some(front, nl);
        assert((head + pieces).drop_last() =~= head + pieces.drop_last());
        assert((head + pieces).last() == pieces.last());
        assert(text::split(all, nl) =~= head + text::split(rest, nl));
    }
}

proof fn lemma_split_some(s: Seq<char>, separators: Seq<char>)
    ensures
        text::split(s, separators).len() > 0,
    decreases s.len(),
{
    if s.len() > 0 {
        lemma_split_some(s.drop_last(), separators);
    }
}

/// The first of some lines comes first.
proof fn lemma_first_line(form: FormView, line: Seq<char>, lines: Seq<Seq<char>>)
    ensures
        config::with_lines(form, seq![line] + lines) == config::with_lines(
            config::with_line(form, line),
            lines,
        ),
    decreases lines.len(),
{
    let all = seq![line] + lines;
    if lines.len() == 0 {
        assert(all.drop_last() =~= Seq::<Seq<char>>::empty());
        assert(all.last() == line);
        assert(config::with_lines(form, all.drop_last()) == form);
    } else {
        assert(all.drop_last() =~= seq![line] + lines.drop_last());
        assert(all.last() == lines.last());
        lemma_first_line(form, line, lines.drop_last());
    }
}

/// The form after all lines of a text.
#[verifier::opaque]
spec fn with_text(form: FormView, content: Seq<char>) -> FormView {
    config::with_lines(form, text::split(content, seq!['\n']))
}

proof fn lemma_text_line(form: FormView, line: Seq<char>, rest: Seq<char>)
    requires
        !line.contains('\n'),
    ensures
        with_text(form, line + seq!['\n'] + rest) == with_text(
            config::with_line(form, line),
            rest,
        ),
{
    reveal(with_text);
    lemma_split_line(line, rest);
    lemma_first_line(form, line, text::split(rest, seq!['\n']));
}

proof fn lemma_text_blank_line(form: FormView, rest: Seq<char>)
    ensures
        with_text(form, seq!['\n'] + rest) == with_text(form, rest),
{
    let none = Seq::<char>::empty();
    lemma_text_line(form, none, rest);
    assert(none + seq!['\n'] + rest =~= seq!['\n'] + rest);
}

proof fn lemma_text_empty(form: FormView)
    ensures
        with_text(form, Seq::empty()) == form,
{
    reveal(with_text);
    let none = Seq::<char>::empty();
    let lines = text::split(none, seq!['\n']);
    assert(lines.drop_last() =~= Seq::<Seq<char>>::empty());
    assert(lines.last() == none);
    assert(config::with_lines(form, lines.drop_last()) == form);
    assert(config::with_line(form, none) == form);
}

/// Capitals and underscores only.
spec fn is_name(s: Seq<char>) -> bool {
    s.len() > 0 && forall|i: int|
        0 <= i < s.len() ==> (#[trigger] s[i] == '_' || 'A' <= s[i] && s[i] <= 'Z')
}

proof fn lemma_names(key: ConfigKey)
    ensures
        is_name(key.spec_name()),
{
    reveal_strlit("BYRBT_USERNAME");
    reveal_strlit("BYRBT_PASSWORD");
    reveal_strlit("QBITTORRENT_HOST");
    reveal_strlit("QBITTORRENT_USERNAME");
    reveal_strlit("QBITTORRENT_PASSWORD");
    reveal_strlit("QBITTORRENT_DOWNLOAD_PATH");
    reveal_strlit("DOWNLOAD_BUDGET_GB");
    reveal_strlit("INCLUDE_CATEGORIES");
}

proof fn lemma_names_differ(a: ConfigKey, b: ConfigKey)
    requires
        a != b,
    ensures
        a.spec_name() != b.spec_name(),
{
    reveal_strlit("BYRBT_USERNAME");
    reveal_strlit("BYRBT_PASSWORD");
    reveal_strlit("QBITTORRENT_HOST");
    reveal_strlit("QBITTORRENT_USERNAME");
    reveal_strlit("QBITTORRENT_PASSWORD");
    reveal_strlit("QBITTORRENT_DOWNLOAD_PATH");
    reveal_strlit("DOWNLOAD_BUDGET_GB");
    reveal_strlit("INCLUDE_CATEGORIES");
    assert("BYRBT_USERNAME"@[6] != "BYRBT_PASSWORD"@[6]);
    assert("QBITTORRENT_USERNAME"@[12] != "QBITTORRENT_PASSWORD"@[12]);
    assert("DOWNLOAD_BUDGET_GB"@[0] != "INCLUDE_CATEGORIES"@[0]);
    assert("BYRBT_USERNAME"@.len() == 14);
    assert("BYRBT_PASSWORD"@.len() == 14);
    assert("QBITTORRENT_HOST"@.len() == 16);
    assert("QBITTORRENT_USERNAME"@.len() == 20);
    assert("QBITTORRENT_PASSWORD"@.len() == 20);
    assert("QBITTORRENT_DOWNLOAD_PATH"@.len() == 25);
    assert("DOWNLOAD_BUDGET_GB"@.len() == 18);
    assert("INCLUDE_CATEGORIES"@.len() == 18);
}

/// The form with one setting set.
spec fn updated(form: FormView, key: ConfigKey, value: Seq<char>) -> FormView {
    match key {
        ConfigKey::ByrUsername => FormView { byr_username: value, ..form },
        ConfigKey::ByrPassword => FormView { byr_password: value, ..form },
        ConfigKey::QbHost => FormView { qb_host: value, ..form },
        ConfigKey::QbUsername => FormView { qb_username: value, ..form },
        ConfigKey::QbPassword => FormView { qb_password: value, ..form },
        ConfigKey::QbDownloadPath => FormView { qb_download_path: value, ..form },
        ConfigKey::DownloadBudgetGb => FormView { download_budget_gb: value, ..form },
        ConfigKey::IncludeCategories => FormView { include_categories: value, ..form },
    }
}

proof fn lemma_updated(form: FormView, key: ConfigKey, value: Seq<char>)
    ensures
        config::with_setting(form, key.spec_name(), value) == updated(form, key, value),
{
    if key != ConfigKey::ByrUsername {
        lemma_names_differ(key, ConfigKey::ByrUsername);
    }
    if key != ConfigKey::ByrPassword {
        lemma_names_differ(key, ConfigKey::ByrPassword);
    }
    if key != ConfigKey::QbHost {
        lemma_names_differ(key, ConfigKey::QbHost);
    }
    if key != ConfigKey::QbUsername {
        lemma_names_differ(key, ConfigKey::QbUsername);
    }
    if key != ConfigKey::QbPassword {
        lemma_names_differ(key, ConfigKey::QbPassword);
    }
    if key != ConfigKey::QbDownloadPath {
        lemma_names_differ(key, ConfigKey::QbDownloadPath);
    }
    if key != ConfigKey::DownloadBudgetGb {
        lemma_names_differ(key, ConfigKey::DownloadBudgetGb);
    }
}

/// Where the first equals sign stands behind a name.
proof fn lemma_find_equals(name: Seq<char>, value: Seq<char>)
    requires
        is_name(name),
    ensures
        text::find(name + seq!['='] + value, seq!['=']) == Some(name.len() as int),
{
    reveal(text::find);
    let s = name + seq!['='] + value;
    let eq = seq!['='];
    let n = name.len() as int;
    assert(s.subrange(n, n + 1) =~= eq);
    assert(text::occurs_at(s, eq, n));
    assert forall|j: int| 0 <= j < n implies !text::occurs_at(s, eq, j) by {
        if text::occurs_at(s, eq, j) {
            assert(s.subrange(j, j + 1)[0] == eq[0]);
            assert(s[j] == name[j]);
        }
    }
    let first = choose|i: int|
        text::occurs_at(s, eq, i) && forall|j: int| 0 <= j < i ==> !text::occurs_at(s, eq, j);
    assert(first == n) by {
        if first < n {
            assert(!text::occurs_at(s, eq, first));
        }
    }
}

/// The parts of a line of a name, an equals sign and a value without outer white space.
proof fn lemma_line_parts(name: Seq<char>, value: Seq<char>)
    requires
        is_name(name),
        text::trim(value) == value,
    ensures
        ({
            let line = name + seq!['='] + value;
            &&& text::trim(line) == line
            &&& line.len() > 0
            &&& line[0] != '#'
            &&& text::find(line, seq!['=']) == Some(name.len() as int)
            &&& text::trim(line.take(name.len() as int)) == name
            &&& line.skip(name.len() as int + 1) == value
        }),
{
    let line = name + seq!['='] + value;
    assert(line[0] == name[0]);
    assert(text::trim(line) == line) by {
        lemma_trim_ends(value);
        if value.len() == 0 {
            assert(line.last() == '=');
        } else {
            assert(line.last() == value.last());
        }
        lemma_trim_fixed(line);
    }
    assert(text::find(line, seq!['=']) == Some(name.len() as int)) by {
        lemma_find_equals(name, value);
    }
    assert(text::trim(line.take(name.len() as int)) == name) by {
        assert(line.take(name.len() as int) =~= name);
        assert(name.last() == name[name.len() - 1]);
        lemma_trim_fixed(name);
    }
    assert(line.skip(name.len() as int + 1) =~= value);
}

/// What such a line does.
proof fn lemma_setting_line(form: FormView, key: ConfigKey, value: Seq<char>)
    requires
        text::trim(value) == value,
    ensures
        config::with_line(form, key.spec_name() + seq!['='] + value) == updated(
            form,
            key,
            config::normalized(value),
        ),
{
    lemma_names(key);
    lemma_line_parts(key.spec_name(), value);
    lemma_updated(form, key, config::normalized(value));
}

/// Escaping adds no line break.
proof fn lemma_escaped_lines(s: Seq<char>)
    requires
        !s.contains('\n'),
    ensures
        !config::escaped(s).contains('\n'),
    decreases s.len(),
{
    if s.len() == 0 {
        assert(config::escaped(s) =~= Seq::<char>::empty());
    } else {
        let rest = s.drop_first();
        lemma_escaped_step(s);
        assert(s.contains(s[0]));
        if rest.contains('\n') {
            let i = choose|i: int| 0 <= i < rest.len() && rest[i] == '\n';
            assert(s[i + 1] == '\n');
        }
        lemma_escaped_lines(rest);
        let head = escape_of(s[0]);
        let e = config::escaped(s);
        if e.contains('\n') {
            let i = choose|i: int| 0 <= i < e.len() && e[i] == '\n';
            if i >= head.len() {
                assert(config::escaped(rest)[i - head.len()] == '\n');
            } else {
                assert(head[i] == '\n');
            }
        }
    }
}

/// What a quoted line does.
proof fn lemma_quoted_line(form: FormView, key: ConfigKey, value: Seq<char>, rest: Seq<char>)
    requires
        !value.contains('\n'),
    ensures
        with_text(form, config::quoted_line(key, value) + rest) == with_text(
            updated(form, key, value),
            rest,
        ),
{
    let name = key.spec_name();
    let e = config::escaped(value);
    let quoted = seq!['"'] + e + seq!['"'];
    let line = name + seq!['='] + quoted;
    lemma_names(key);
    lemma_escaped_lines(value);
    assert(!line.contains('\n')) by {
        if line.contains('\n') {
            let i = choose|i: int| 0 <= i < line.len() && line[i] == '\n';
            if i < name.len() {
                assert(name[i] == '\n');
            } else if i == name.len() {
                assert(line[i] == '=');
            } else {
                let j = i - name.len() - 1;
                assert(quoted[j] == '\n');
                if j > 0 && j <= e.len() {
                    assert(e[j - 1] == '\n');
                }
            }
        }
    }
    assert(config::quoted_line(key, value) + rest =~= line + seq!['\n'] + rest);
    lemma_text_line(form, line, rest);
    lemma_trim_fixed(quoted);
    lemma_setting_line(form, key, quoted);
    assert(quoted.subrange(1, quoted.len() - 1) =~= e);
    law_unescape_undoes_escape(value);
}

/// No line break in any setting.
pub open spec fn is_single_lined(form: FormView) -> bool {
    &&& !form.byr_username.contains('\n')
    &&& !form.byr_password.contains('\n')
    &&& !form.qb_host.contains('\n')
    &&& !form.qb_username.contains('\n')
    &&& !form.qb_password.contains('\n')
    &&& !form.qb_download_path.contains('\n')
    &&& !text::trim(form.download_budget_gb).contains('\n')
    &&& !form.include_categories.contains('\n')
}

proof fn lemma_regroup(a: Seq<char>, b: Seq<char>, c: Seq<char>)
    ensures
        a + b + c == a + (b + c),
{
    assert(a + b + c =~= a + (b + c));
}

/// The written form, grouped from its end.
proof fn lemma_rendered(form: FormView)
    ensures
        config::rendered_form(form) == config::quoted_line(
            ConfigKey::ByrUsername,
            form.byr_username,
        ) + (config::quoted_line(ConfigKey::ByrPassword, form.byr_password) + (seq!['\n'] + (
        config::quoted_line(ConfigKey::QbHost, form.qb_host) + (config::quoted_line(
            ConfigKey::QbUsername,
            form.qb_username,
        ) + (config::quoted_line(ConfigKey::QbPassword, form.qb_password) + (config::quoted_line(
            ConfigKey::QbDownloadPath,
            form.qb_download_path,
        ) + (seq!['\n'] + (ConfigKey::DownloadBudgetGb.spec_name() + seq!['='] + text::trim(
            form.download_budget_gb,
        ) + seq!['\n'] + (config::quoted_line(
            ConfigKey::IncludeCategories,
            form.include_categories,
        ) + Seq::<char>::empty()))))))))),
{
    let nl = seq!['\n'];
    let q1 = config::quoted_line(ConfigKey::ByrUsername, form.byr_username);
    let q2 = config::quoted_line(ConfigKey::ByrPassword, form.byr_password);
    let q3 = config::quoted_line(ConfigKey::QbHost, form.qb_host);
    let q4 = config::quoted_line(ConfigKey::QbUsername, form.qb_username);
    let q5 = config::quoted_line(ConfigKey::QbPassword, form.qb_password);
    let q6 = config::quoted_line(ConfigKey::QbDownloadPath, form.qb_download_path);
    let name = ConfigKey::DownloadBudgetGb.spec_name();
    let eq = seq!['='];
    let budget = text::trim(form.download_budget_gb);
    let q8 = config::quoted_line(ConfigKey::IncludeCategories, form.include_categories);
    let l6 = q1 + q2 + nl + q3 + q4 + q5 + q6;
    let tail = q8 + Seq::<char>::empty();
    assert(tail =~= q8);
    let line = name + eq + budget + nl + tail;
    lemma_regroup(l6 + nl, name, eq);
    lemma_regroup(l6 + nl, name + eq, budget);
    lemma_regroup(l6 + nl, name + eq + budget, nl);
    lemma_regroup(l6 + nl, name + eq + budget + nl, tail);
    lemma_regroup(l6, nl, line);
    let r6 = nl + line;
    lemma_regroup(q1 + q2 + nl + q3 + q4 + q5, q6, r6);
    lemma_regroup(q1 + q2 + nl + q3 + q4, q5, q6 + r6);
    lemma_regroup(q1 + q2 + nl + q3, q4, q5 + (q6 + r6));
    lemma_regroup(q1 + q2 + nl, q3, q4 + (q5 + (q6 + r6)));
    lemma_regroup(q1 + q2, nl, q3 + (q4 + (q5 + (q6 + r6))));
    lemma_regroup(q1, q2, nl + (q3 + (q4 + (q5 + (q6 + r6)))));
}

/// The tracker's settings are read.
proof fn lemma_tracker_part(form: FormView, start: FormView, rest: Seq<char>)
    requires
        is_single_lined(form),
    ensures
        with_text(
            start,
            config::quoted_line(ConfigKey::ByrUsername, form.byr_username) + (config::quoted_line(
                ConfigKey::ByrPassword,
                form.byr_password,
            ) + (seq!['\n'] + rest)),
        ) == with_text(
            (FormView {
                byr_username: form.byr_username,
                byr_password: form.byr_password,
                ..start
            }),
            rest,
        ),
{
    let f1 = FormView { byr_username: form.byr_username, ..start };
    let f2 = FormView { byr_password: form.byr_password, ..f1 };
    let r2 = seq!['\n'] + rest;
    let r1 = config::quoted_line(ConfigKey::ByrPassword, form.byr_password) + r2;
    lemma_quoted_line(start, ConfigKey::ByrUsername, form.byr_username, r1);
    lemma_quoted_line(f1, ConfigKey::ByrPassword, form.byr_password, r2);
    lemma_text_blank_line(f2, rest);
}

/// The settings of qBittorrent are read.
proof fn lemma_client_part(form: FormView, start: FormView, rest: Seq<char>)
    requires
        is_single_lined(form),
    ensures
        with_text(
            start,
            config::quoted_line(ConfigKey::QbHost, form.qb_host) + (config::quoted_line(
                ConfigKey::QbUsername,
                form.qb_username,
            ) + (config::quoted_line(ConfigKey::QbPassword, form.qb_password) + (
            config::quoted_line(ConfigKey::QbDownloadPath, form.qb_download_path) + (seq!['\n']
                + rest)))),
        ) == with_text(
            (FormView {
                qb_host: form.qb_host,
                qb_username: form.qb_username,
                qb_password: form.qb_password,
                qb_download_path: form.qb_download_path,
                ..start
            }),
            rest,
        ),
{
    let f1 = FormView { qb_host: form.qb_host, ..start };
    let f2 = FormView { qb_username: form.qb_username, ..f1 };
    let f3 = FormView { qb_password: form.qb_password, ..f2 };
    let f4 = FormView { qb_download_path: form.qb_download_path, ..f3 };
    let r4 = seq!['\n'] + rest;
    let r3 = config::quoted_line(ConfigKey::QbDownloadPath, form.qb_download_path) + r4;
    let r2 = config::quoted_line(ConfigKey::QbPassword, form.qb_password) + r3;
    let r1 = config::quoted_line(ConfigKey::QbUsername, form.qb_username) + r2;
    lemma_quoted_line(start, ConfigKey::QbHost, form.qb_host, r1);
    lemma_quoted_line(f1, ConfigKey::QbUsername, form.qb_username, r2);
    lemma_quoted_line(f2, ConfigKey::QbPassword, form.qb_password, r3);
    lemma_quoted_line(f3, ConfigKey::QbDownloadPath, form.qb_download_path, r4);
    lemma_text_blank_line(f4, rest);
}

/// A budget that is not in quotes is read.
proof fn lemma_budget_part(form: FormView, start: FormView, rest: Seq<char>)
    requires
        is_single_lined(form),
        !config::is_quoted(text::trim(form.download_budget_gb)),
    ensures
        with_text(
            start,
            ConfigKey::DownloadBudgetGb.spec_name() + seq!['='] + text::trim(
                form.download_budget_gb,
            ) + seq!['\n'] + rest,
        ) == with_text(
            (FormView { download_budget_gb: text::trim(form.download_budget_gb), ..start }),
            rest,
        ),
{
    let budget = text::trim(form.download_budget_gb);
    let name = ConfigKey::DownloadBudgetGb.spec_name();
    let line = name + seq!['='] + budget;
    lemma_trim_ends(form.download_budget_gb);
    lemma_trim_fixed(budget);
    lemma_names(ConfigKey::DownloadBudgetGb);
    assert(!line.contains('\n')) by {
        if line.contains('\n') {
            let i = choose|i: int| 0 <= i < line.len() && line[i] == '\n';
            if i < name.len() {
                assert(name[i] == '\n');
            } else if i > name.len() {
                assert(budget[i - name.len() - 1] == '\n');
            }
        }
    }
    lemma_text_line(start, line, rest);
    lemma_setting_line(start, ConfigKey::DownloadBudgetGb, budget);
}

/// Reading gives back what was written: every setting as it was, the budget without white space
/// around it, and the default where a setting that cannot be blank was. This needs settings
/// without line breaks, and a budget that is not itself in quotes.
pub proof fn law_written_form_reads_back(form: FormView)
    requires
        is_single_lined(form),
        !config::is_quoted(text::trim(form.download_budget_gb)),
    ensures
        config::parsed_form(config::rendered_form(form)) == config::with_defaults(
            (FormView { download_budget_gb: text::trim(form.download_budget_gb), ..form }),
        ),
{
    let none = Seq::<char>::empty();
    let r7 = config::quoted_line(ConfigKey::IncludeCategories, form.include_categories) + none;
    let r6 = ConfigKey::DownloadBudgetGb.spec_name() + seq!['='] + text::trim(
        form.download_budget_gb,
    ) + seq!['\n'] + r7;
    let r2 = config::quoted_line(ConfigKey::QbHost, form.qb_host) + (config::quoted_line(
        ConfigKey::QbUsername,
        form.qb_username,
    ) + (config::quoted_line(ConfigKey::QbPassword, form.qb_password) + (config::quoted_line(
        ConfigKey::QbDownloadPath,
        form.qb_download_path,
    ) + (seq!['\n'] + r6))));
    let f0 = config::default_form();
    let f2 = FormView {
        byr_username: form.byr_username,
        byr_password: form.byr_password,
        ..f0
    };
    let f6 = FormView {
        qb_host: form.qb_host,
        qb_username: form.qb_username,
        qb_password: form.qb_password,
        qb_download_path: form.qb_download_path,
        ..f2
    };
    let f7 = FormView { download_budget_gb: text::trim(form.download_budget_gb), ..f6 };
    let f8 = FormView { include_categories: form.include_categories, ..f7 };
    lemma_rendered(form);
    lemma_tracker_part(form, f0, r2);
    lemma_client_part(form, f2, r6);
    lemma_budget_part(form, f6, r7);
    lemma_quoted_line(f7, ConfigKey::IncludeCategories, form.include_categories, none);
    lemma_text_empty(f8);
    assert(with_text(f0, config::rendered_form(form)) == f8);
    assert(config::parsed_form(config::rendered_form(form)) == config::with_defaults(f8)) by {
        reveal(with_text);
    }
}

/// The names of the settings.
pub proof fn law_setting_names()
    ensures
        ConfigKey::ByrUsername.spec_name() == "BYRBT_USERNAME"@,
        ConfigKey::ByrPassword.spec_name() == "BYRBT_PASSWORD"@,
        ConfigKey::QbHost.spec_name() == "QBITTORRENT_HOST"@,
        ConfigKey::QbUsername.spec_name() == "QBITTORRENT_USERNAME"@,
        ConfigKey::QbPassword.spec_name() == "QBITTORRENT_PASSWORD"@,
        ConfigKey::QbDownloadPath.spec_name() == "QBITTORRENT_DOWNLOAD_PATH"@,
        ConfigKey::DownloadBudgetGb.spec_name() == "DOWNLOAD_BUDGET_GB"@,
        ConfigKey::IncludeCategories.spec_name() == "INCLUDE_CATEGORIES"@,
{
}

/// A setting of a form, by its name.
pub open spec fn setting(form: FormView, key: ConfigKey) -> Seq<char> {
    match key {
        ConfigKey::ByrUsername => form.byr_username,
        ConfigKey::ByrPassword => form.byr_password,
        ConfigKey::QbHost => form.qb_host,
        ConfigKey::QbUsername => form.qb_username,
        ConfigKey::QbPassword => form.qb_password,
        ConfigKey::QbDownloadPath => form.qb_download_path,
        ConfigKey::DownloadBudgetGb => form.download_budget_gb,
        ConfigKey::IncludeCategories => form.include_categories,
    }
}

/// Escaping goes character by character: a backslash and a double quote get a backslash before
/// them, and every other character stays as it is.
pub proof fn law_escaping(a: Seq<char>, b: Seq<char>, c: char)
    ensures
        config::escaped(Seq::empty()) == Seq::<char>::empty(),
        config::escaped(a + b) == config::escaped(a) + config::escaped(b),
        c == '\\' || c == '"' ==> config::escaped(seq![c]) == seq!['\\', c],
        c != '\\' && c != '"' ==> config::escaped(seq![c]) == seq![c],
{
    let none = Seq::<char>::empty();
    assert(config::escaped(none) =~= none);
    let doubled = |s: Seq<char>| text::replace(s, seq!['\\'], seq!['\\', '\\']);
    lemma_replace_char_concat(a, b, '\\', seq!['\\', '\\']);
    lemma_replace_char_concat(doubled(a), doubled(b), '"', seq!['\\', '"']);
    let one = seq![c];
    assert(one.drop_first() =~= none);
    lemma_escaped_step(one);
    if c == '\\' {
        assert(config::escaped(one) =~= seq!['\\', c]);
    } else if c == '"' {
        assert(config::escaped(one) =~= seq!['\\', c]);
    } else {
        assert(config::escaped(one) =~= one);
    }
}

/// A value between double quotes is read without them and without its escapes, one between single
/// quotes likewise, and any other without the white space around it.
pub proof fn law_values(value: Seq<char>)
    ensures
        config::normalized(seq!['"'] + config::escaped(value) + seq!['"']) == value,
        !value.contains('\\') ==> config::normalized(seq!['\''] + value + seq!['\'']) == value,
        ({
            let bare = text::trim(value);
            bare.len() < 2 || !(bare[0] == '"' && bare.last() == '"' || bare[0] == '\''
                && bare.last() == '\'') ==> config::normalized(value) == bare
        }),
{
    let quoted = seq!['"'] + config::escaped(value) + seq!['"'];
    lemma_trim_fixed(quoted);
    assert(quoted.subrange(1, quoted.len() - 1) =~= config::escaped(value));
    law_unescape_undoes_escape(value);
    if !value.contains('\\') {
        let single = seq!['\''] + value + seq!['\''];
        lemma_trim_fixed(single);
        assert(single.subrange(1, single.len() - 1) =~= value);
        lemma_no_escape(value, seq!['\\', '"'], seq!['"']);
        lemma_no_escape(value, seq!['\\', '\\'], seq!['\\']);
    }
}

proof fn lemma_no_escape(value: Seq<char>, pattern: Seq<char>, with: Seq<char>)
    requires
        !value.contains('\\'),
        pattern.len() > 0,
        pattern[0] == '\\',
    ensures
        text::replace(value, pattern, with) == value,
{
    text_law::law_find(value, pattern);
    text_law::law_replace(value, pattern, with);
    match text::find(value, pattern) {
        Some(i) => {
            assert(value.subrange(i, i + pattern.len())[0] == value[i]);
            assert(value.contains(value[i]));
        },
        None => {},
    }
}

/// Comments, blank lines and lines without an equals sign change nothing, nor do settings of other
/// names.
pub proof fn law_lines_that_set_nothing(form: FormView, line: Seq<char>, name: Seq<char>)
    ensures
        text::is_blank(line) ==> config::with_line(form, line) == form,
        !text::is_blank(line) && text::trim(line)[0] == '#' ==> config::with_line(form, line)
            == form,
        !text::trim(line).contains('=') ==> config::with_line(form, line) == form,
        name != "BYRBT_USERNAME"@ && name != "BYRBT_PASSWORD"@ && name != "QBITTORRENT_HOST"@
            && name != "QBITTORRENT_USERNAME"@ && name != "QBITTORRENT_PASSWORD"@ && name
            != "QBITTORRENT_DOWNLOAD_PATH"@ && name != "DOWNLOAD_BUDGET_GB"@ && name
            != "INCLUDE_CATEGORIES"@ ==> config::with_setting(form, name, line) == form,
{
    let trimmed = text::trim(line);
    let equals = seq!['='];
    assert(equals[0] == '=');
    text_law::law_find(trimmed, equals);
    match text::find(trimmed, equals) {
        Some(i) => {
            assert(trimmed.subrange(i, i + equals.len())[0] == trimmed[i]);
            assert(trimmed.contains(trimmed[i]));
        },
        None => {},
    }
}

/// A line behind others that sets a setting has the last word on it, and leaves all others as they
/// were.
pub proof fn law_last_line_decides(
    content: Seq<char>,
    key: ConfigKey,
    value: Seq<char>,
    other: ConfigKey,
)
    requires
        value.len() > 0,
        !text::is_white(value[0]),
        !text::is_white(value.last()),
        !config::is_quoted(value),
        !value.contains('\n'),
    ensures
        setting(
            config::parsed_form(content + seq!['\n'] + (key.spec_name() + seq!['='] + value)),
            other,
        ) == if other == key {
            value
        } else {
            setting(config::parsed_form(content), other)
        },
{
    let line = key.spec_name() + seq!['='] + value;
    let breaks = seq!['\n'];
    assert(breaks[0] == '\n');
    assert(breaks.contains('\n'));
    lemma_names(key);
    assert forall|i: int| 0 <= i < line.len() implies !breaks.contains(#[trigger] line[i]) by {
        if i < key.spec_name().len() {
            assert(line[i] == key.spec_name()[i]);
        } else if i > key.spec_name().len() {
            assert(line[i] == value[i - key.spec_name().len() - 1]);
            assert(value.contains(line[i]));
        }
    }
    text_law::law_split(content, line, breaks, '\n');
    let before = text::split(content, breaks);
    let all = text::split(content + breaks + line, breaks);
    assert(all == before + seq![line]);
    assert(all.drop_last() =~= before);
    assert(all.last() == line);
    lemma_trim_fixed(value);
    lemma_setting_line(config::with_lines(config::default_form(), before), key, value);
    text_law::law_blank(value);
    assert(!text::is_blank(value));
}

/// The same holds of a line that sets a setting to a value in quotes, whatever the value holds but a
/// line break.
pub proof fn law_last_quoted_line_decides(
    content: Seq<char>,
    key: ConfigKey,
    value: Seq<char>,
    other: ConfigKey,
)
    requires
        !text::is_blank(value),
        !value.contains('\n'),
    ensures
        setting(
            config::parsed_form(
                content + seq!['\n'] + (key.spec_name() + seq!['='] + (seq!['"']
                    + config::escaped(value) + seq!['"'])),
            ),
            other,
        ) == if other == key {
            value
        } else {
            setting(config::parsed_form(content), other)
        },
{
    let quoted = seq!['"'] + config::escaped(value) + seq!['"'];
    let line = key.spec_name() + seq!['='] + quoted;
    lemma_names(key);
    lemma_escaped_lines(value);
    assert(!line.contains('\n')) by {
        if line.contains('\n') {
            let i = choose|i: int| 0 <= i < line.len() && line[i] == '\n';
            let n = key.spec_name().len();
            if i < n {
                assert(key.spec_name()[i] == '\n');
            } else if n + 1 < i < line.len() - 1 {
                assert(config::escaped(value)[i - n - 2] == '\n');
                assert(config::escaped(value).contains('\n'));
            }
        }
    }
    lemma_appended(content, line);
    lemma_trim_fixed(quoted);
    lemma_setting_line(
        config::with_lines(config::default_form(), text::split(content, seq!['\n'])),
        key,
        quoted,
    );
    law_values(value);
}

/// One more line is read after the others.
proof fn lemma_appended(content: Seq<char>, line: Seq<char>)
    requires
        !line.contains('\n'),
    ensures
        config::parsed_form(content + seq!['\n'] + line) == config::with_defaults(
            config::with_line(
                config::with_lines(config::default_form(), text::split(content, seq!['\n'])),
                line,
            ),
        ),
{
    let breaks = seq!['\n'];
    assert(breaks[0] == '\n');
    assert(breaks.contains('\n'));
    assert forall|i: int| 0 <= i < line.len() implies !breaks.contains(#[trigger] line[i]) by {
        assert(line.contains(line[i]));
    }
    text_law::law_split(content, line, breaks, '\n');
    let before = text::split(content, breaks);
    let all = text::split(content + breaks + line, breaks);
    assert(all == before + seq![line]);
    assert(all.drop_last() =~= before);
    assert(all.last() == line);
}

/// A line behind others that sets nothing changes nothing.
pub proof fn law_last_line_may_set_nothing(content: Seq<char>, line: Seq<char>)
    requires
        !line.contains('\n'),
        text::is_blank(line) || text::trim(line)[0] == '#' || !text::trim(line).contains('='),
    ensures
        config::parsed_form(content + seq!['\n'] + line) == config::parsed_form(content),
{
    lemma_appended(content, line);
    law_lines_that_set_nothing(
        config::with_lines(config::default_form(), text::split(content, seq!['\n'])),
        line,
        line,
    );
}

/// A line break before everything changes nothing, and an empty text holds the usual settings.
pub proof fn law_first_line(line: Seq<char>)
    requires
        !line.contains('\n'),
    ensures
        config::parsed_form(seq!['\n'] + line) == config::parsed_form(line),
        config::parsed_form(Seq::empty()) == config::default_form(),
{
    let none = Seq::<char>::empty();
    let breaks = seq!['\n'];
    assert(breaks[0] == '\n');
    assert(breaks.contains('\n'));
    assert(none + breaks + line =~= breaks + line);
    lemma_appended(none, line);
    assert forall|i: int| 0 <= i < line.len() implies !breaks.contains(#[trigger] line[i]) by {
        assert(line.contains(line[i]));
    }
    text_law::law_split(none, line, breaks, '\n');
    text_law::law_split(line, none, breaks, '\n');
    let blank = seq![none];
    assert(text::split(none, breaks) == blank);
    assert(blank.drop_last().len() == 0);
    assert(blank.last() == none);
    let start = config::default_form();
    assert(text::trim(none).len() == 0);
    assert(config::with_lines(start, blank.drop_last()) == start);
    assert(config::with_lines(start, blank) == start);
    let one = seq![line];
    assert(one.drop_last().len() == 0);
    assert(one.last() == line);
    assert(config::with_lines(start, one.drop_last()) == start);
    assert(config::with_lines(start, one) == config::with_line(start, line));
    reveal_strlit("http://127.0.0.1:8080");
    reveal_strlit("admin");
    reveal_strlit("H:/BT");
    reveal_strlit("200");
    assert(config::with_defaults(start) =~= start);
}

/// What the user is told of a form that is refused.
pub proof fn law_refusals(key: ConfigKey)
    ensures
        ConfigError::Missing(key).spec_message() == "缺少配置项: "@ + key.spec_name(),
        ConfigError::BudgetNotNumber.spec_message() == "DOWNLOAD_BUDGET_GB 必须是数字"@,
        ConfigError::BudgetNotPositive.spec_message() == "DOWNLOAD_BUDGET_GB 必须大于 0"@,
{
}

/// A form has a host, a user name and a place for qBittorrent, and a budget: those that are given,
/// and the usual ones where none are. The other settings stay as they are.
pub proof fn law_defaults(form: FormView)
    ensures
        ({
            let filled = config::with_defaults(form);
            &&& filled.byr_username == form.byr_username && filled.byr_password
                == form.byr_password && filled.qb_password == form.qb_password
                && filled.include_categories == form.include_categories
            &&& filled.qb_host == if text::is_blank(form.qb_host) {
                "http://127.0.0.1:8080"@
            } else {
                form.qb_host
            }
            &&& filled.qb_username == if text::is_blank(form.qb_username) {
                "admin"@
            } else {
                form.qb_username
            }
            &&& filled.qb_download_path == if text::is_blank(form.qb_download_path) {
                "H:/BT"@
            } else {
                form.qb_download_path
            }
            &&& filled.download_budget_gb == if text::is_blank(form.download_budget_gb) {
                "200"@
            } else {
                form.download_budget_gb
            }
        }),
        config::default_form().byr_username.len() == 0,
        config::default_form().byr_password.len() == 0,
        config::default_form().qb_password.len() == 0,
        config::default_form().include_categories.len() == 0,
{
}

/// A list of categories is cut at its commas: what two parts of it name is what each of them names,
/// and a part without a comma names itself, trimmed, unless it is blank.
pub proof fn law_listed(a: Seq<char>, b: Seq<char>)
    ensures
        config::listed(a + seq![','] + b) == config::listed(a) + config::listed(b),
        !b.contains(',') && text::is_blank(b) ==> config::listed(b).len() == 0,
        !b.contains(',') && !text::is_blank(b) ==> config::listed(b) == seq![text::trim(b)],
{
    let comma = seq![','];
    assert(comma[0] == ',');
    assert(comma.contains(','));
    text_law::law_split(a, b, comma, ',');
    let x = text::split(a, comma);
    let y = text::split(b, comma);
    let bare = |part: Seq<char>| text::trim(part);
    let named = |part: Seq<char>| part.len() > 0;
    assert((x + y).map_values(bare) =~= x.map_values(bare) + y.map_values(bare));
    rotation_law::lemma_filter_parts(x.map_values(bare), y.map_values(bare), named);
    if !b.contains(',') {
        assert forall|i: int| 0 <= i < b.len() implies !comma.contains(#[trigger] b[i]) by {
            assert(b.contains(b[i]));
        }
        let part = text::trim(b);
        assert(y.map_values(bare) =~= seq![part]);
        reveal(Seq::filter);
        assert(seq![part].drop_last() =~= Seq::<Seq<char>>::empty());
        assert(Seq::<Seq<char>>::empty().filter(named) =~= Seq::<Seq<char>>::empty());
        assert(seq![part].last() == part);
        assert(seq![part].filter(named) =~= (if part.len() > 0 {
            seq![part]
        } else {
            Seq::empty()
        }));
    }
}

/// A list that names categories is a filter of these, and one that names none is no filter.
pub proof fn law_filter_of_a_list(list: Seq<char>)
    ensures
        config::listed(list).len() == 0 ==> config::category_filter(list) is None,
        config::listed(list).len() > 0 ==> config::category_filter(list) == Some(
            config::listed(list),
        ),
{
}

/// Five settings cannot be blank: where one is, the first such one is what the form is refused for.
pub proof fn law_required_settings(form: FormView)
    ensures
        config::form_error(form) is None ==> !text::is_blank(form.byr_username) && !text::is_blank(
            form.byr_password,
        ) && !text::is_blank(form.qb_host) && !text::is_blank(form.qb_username) && !text::is_blank(
            form.qb_password,
        ) && config::budget_error(form.download_budget_gb) is None,
        text::is_blank(form.byr_username) ==> config::form_error(form) == Some(
            ConfigError::Missing(ConfigKey::ByrUsername),
        ),
        !text::is_blank(form.byr_username) && text::is_blank(form.byr_password)
            ==> config::form_error(form) == Some(ConfigError::Missing(ConfigKey::ByrPassword)),
        !text::is_blank(form.byr_username) && !text::is_blank(form.byr_password) && text::is_blank(
            form.qb_host,
        ) ==> config::form_error(form) == Some(ConfigError::Missing(ConfigKey::QbHost)),
        !text::is_blank(form.byr_username) && !text::is_blank(form.byr_password) && !text::is_blank(
            form.qb_host,
        ) && text::is_blank(form.qb_username) ==> config::form_error(form) == Some(
            ConfigError::Missing(ConfigKey::QbUsername),
        ),
        !text::is_blank(form.byr_username) && !text::is_blank(form.byr_password) && !text::is_blank(
            form.qb_host,
        ) && !text::is_blank(form.qb_username) && text::is_blank(form.qb_password)
            ==> config::form_error(form) == Some(ConfigError::Missing(ConfigKey::QbPassword)),
        !text::is_blank(form.byr_username) && !text::is_blank(form.byr_password) && !text::is_blank(
            form.qb_host,
        ) && !text::is_blank(form.qb_username) && !text::is_blank(form.qb_password)
            ==> config::form_error(form) == config::budget_error(form.download_budget_gb),
{
}

/// A budget may be left out; otherwise it has to be a number, and not one at or below zero.
pub proof fn law_budget_errors(budget: Seq<char>)
    ensures
        text::is_blank(budget) ==> config::budget_error(budget) is None,
        !text::is_blank(budget) && decimal::number(text::trim(budget)) is None
            ==> config::budget_error(budget) == Some(ConfigError::BudgetNotNumber),
        !text::is_blank(budget) && decimal::number(text::trim(budget)) is Some ==> (
        config::budget_error(budget) == Some(ConfigError::BudgetNotPositive) <==> (decimal::number(
            text::trim(budget),
        )->0).at_most_zero()) && config::budget_error(budget) != Some(ConfigError::BudgetNotNumber),
        config::budget_error(budget) matches Some(error) ==> error == ConfigError::BudgetNotNumber
            || error == ConfigError::BudgetNotPositive,
{
}

/// What a configuration takes from a form: the passwords as they are, the rest without white space
/// around it, the host without slashes at its end.
pub proof fn law_config_of_a_form(config: Config, form: FormView, dry_run: bool)
    requires
        config::is_config_of(config, form, dry_run),
    ensures
        config.byr_username@ == text::trim(form.byr_username),
        config.byr_password@ == form.byr_password,
        config.qb_host@ == text::trim_end_char(text::trim(form.qb_host), '/'),
        config.qb_username@ == text::trim(form.qb_username),
        config.qb_password@ == form.qb_password,
        text::is_blank(form.qb_download_path) ==> config.qb_download_path@ == "H:/BT"@,
        !text::is_blank(form.qb_download_path) ==> config.qb_download_path@ == text::trim(
            form.qb_download_path,
        ),
        config.dry_run == dry_run,
        config.include_categories is Some <==> config::listed(form.include_categories).len() > 0,
        config.include_categories matches Some(list) ==> config::texts(list@) == config::listed(
            form.include_categories,
        ),
        !config.auto_rotate_enabled,
        config.max_remove_per_cycle == 0,
        config.min_seeding_hours_before_remove == 0,
        config.max_leechers_for_stale == 0,
        config.max_recent_upspeed_kib == 0,
{
}

/// A variable of the process is set to a value without the white space around it, and removed where
/// that leaves nothing.
pub proof fn law_process_variables(change: EnvChange, key: ConfigKey, value: Seq<char>)
    requires
        change.is_of(key, value),
    ensures
        change.key == key,
        change.value is None <==> text::is_blank(value),
        change.value matches Some(set) ==> set@ == text::trim(value),
{
}

} // verus!
