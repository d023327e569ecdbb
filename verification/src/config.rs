//! The settings: the form that the user edits, the `.env` text that it is kept in, and the checked
//! configuration of a run.

use crate::decimal;
use crate::text;
use vstd::prelude::*;
use vstd::slice::*;
use vstd::string::*;

verus! {

/// The name of a setting.
#[derive(Debug, Clone, Copy, PartialEq, Eq, Structural)]
pub enum ConfigKey {
    ByrUsername,
    ByrPassword,
    QbHost,
    QbUsername,
    QbPassword,
    QbDownloadPath,
    DownloadBudgetGb,
    IncludeCategories,
}

impl ConfigKey {
    /// The name in the `.env` text and in the process environment.
    pub open spec fn spec_name(self) -> Seq<char> {
        match self {
            ConfigKey::ByrUsername => "BYRBT_USERNAME"@,
            ConfigKey::ByrPassword => "BYRBT_PASSWORD"@,
            ConfigKey::QbHost => "QBITTORRENT_HOST"@,
            ConfigKey::QbUsername => "QBITTORRENT_USERNAME"@,
            ConfigKey::QbPassword => "QBITTORRENT_PASSWORD"@,
            ConfigKey::QbDownloadPath => "QBITTORRENT_DOWNLOAD_PATH"@,
            ConfigKey::DownloadBudgetGb => "DOWNLOAD_BUDGET_GB"@,
            ConfigKey::IncludeCategories => "INCLUDE_CATEGORIES"@,
        }
    }

    /// The name in the `.env` text and in the process environment.
    pub fn name(self) -> (r: &'static str)
        ensures
            r@ == self.spec_name(),
    {
        match self {
            ConfigKey::ByrUsername => "BYRBT_USERNAME",
            ConfigKey::ByrPassword => "BYRBT_PASSWORD",
            ConfigKey::QbHost => "QBITTORRENT_HOST",
            ConfigKey::QbUsername => "QBITTORRENT_USERNAME",
            ConfigKey::QbPassword => "QBITTORRENT_PASSWORD",
            ConfigKey::QbDownloadPath => "QBITTORRENT_DOWNLOAD_PATH",
            ConfigKey::DownloadBudgetGb => "DOWNLOAD_BUDGET_GB",
            ConfigKey::IncludeCategories => "INCLUDE_CATEGORIES",
        }
    }
}

/// Why a form is no configuration.
#[derive(Debug, Clone, Copy, PartialEq, Eq, Structural)]
pub enum ConfigError {
    Missing(ConfigKey),
    BudgetNotNumber,
    BudgetNotPositive,
}

impl ConfigError {
    /// What the user is told.
    pub open spec fn spec_message(self) -> Seq<char> {
        match self {
            ConfigError::Missing(key) => "缺少配置项: "@ + key.spec_name(),
            ConfigError::BudgetNotNumber => "DOWNLOAD_BUDGET_GB 必须是数字"@,
            ConfigError::BudgetNotPositive => "DOWNLOAD_BUDGET_GB 必须大于 0"@,
        }
    }

    /// What the user is told.
    pub fn message(&self) -> (r: String)
        ensures
            r@ == self.spec_message(),
    {
        match self {
            ConfigError::Missing(key) => {
                let mut line = String::from_str("缺少配置项: ");
                line.append(key.name());
                line
            },
            ConfigError::BudgetNotNumber => String::from_str("DOWNLOAD_BUDGET_GB 必须是数字"),
            ConfigError::BudgetNotPositive => String::from_str("DOWNLOAD_BUDGET_GB 必须大于 0"),
        }
    }
}

/// The configuration of a run.
#[derive(Debug, Clone)]
pub struct Config {
    pub byr_username: String,
    pub byr_password: String,
    pub qb_host: String,
    pub qb_username: String,
    pub qb_password: String,
    pub qb_download_path: String,
    pub dry_run: bool,
    pub include_categories: Option<Vec<String>>,
    pub auto_rotate_enabled: bool,
    pub max_remove_per_cycle: usize,
    pub min_seeding_hours_before_remove: u64,
    pub max_leechers_for_stale: i32,
    pub max_recent_upspeed_kib: u64,
}

/// The settings as the user edits them.
#[derive(Debug)]
pub struct ConfigForm {
    pub byr_username: String,
    pub byr_password: String,
    pub qb_host: String,
    pub qb_username: String,
    pub qb_password: String,
    pub qb_download_path: String,
    pub download_budget_gb: String,
    pub include_categories: String,
}

/// The texts of a form.
#[verifier::ext_equal]
pub struct FormView {
    pub byr_username: Seq<char>,
    pub byr_password: Seq<char>,
    pub qb_host: Seq<char>,
    pub qb_username: Seq<char>,
    pub qb_password: Seq<char>,
    pub qb_download_path: Seq<char>,
    pub download_budget_gb: Seq<char>,
    pub include_categories: Seq<char>,
}

impl View for ConfigForm {
    type V = FormView;

    open spec fn view(&self) -> FormView {
        FormView {
            byr_username: self.byr_username@,
            byr_password: self.byr_password@,
            qb_host: self.qb_host@,
            qb_username: self.qb_username@,
            qb_password: self.qb_password@,
            qb_download_path: self.qb_download_path@,
            download_budget_gb: self.download_budget_gb@,
            include_categories: self.include_categories@,
        }
    }
}

impl Clone for ConfigForm {
    fn clone(&self) -> (r: Self)
        ensures
            r == *self,
    {
        ConfigForm {
            byr_username: self.byr_username.clone(),
            byr_password: self.byr_password.clone(),
            qb_host: self.qb_host.clone(),
            qb_username: self.qb_username.clone(),
            qb_password: self.qb_password.clone(),
            qb_download_path: self.qb_download_path.clone(),
            download_budget_gb: self.download_budget_gb.clone(),
            include_categories: self.include_categories.clone(),
        }
    }
}

/// The settings before the first change.
pub open spec fn default_form() -> FormView {
    FormView {
        byr_username: Seq::empty(),
        byr_password: Seq::empty(),
        qb_host: "http://127.0.0.1:8080"@,
        qb_username: "admin"@,
        qb_password: Seq::empty(),
        qb_download_path: "H:/BT"@,
        download_budget_gb: "200"@,
        include_categories: Seq::empty(),
    }
}

impl Default for ConfigForm {
    fn default() -> (r: Self)
        ensures
            r@ == default_form(),
    {
        ConfigForm {
            byr_username: String::new(),
            byr_password: String::new(),
            qb_host: String::from_str("http://127.0.0.1:8080"),
            qb_username: String::from_str("admin"),
            qb_password: String::new(),
            qb_download_path: String::from_str("H:/BT"),
            download_budget_gb: String::from_str("200"),
            include_categories: String::new(),
        }
    }
}

/// A value with its backslashes and double quotes escaped.
pub open spec fn escaped(value: Seq<char>) -> Seq<char> {
    text::replace(text::replace(value, seq!['\\'], seq!['\\', '\\']), seq!['"'], seq!['\\', '"'])
}

/// A value without the escapes.
pub open spec fn unescaped(value: Seq<char>) -> Seq<char> {
    text::replace(text::replace(value, seq!['\\', '"'], seq!['"']), seq!['\\', '\\'], seq!['\\'])
}

/// Text between two double or two single quotes.
pub open spec fn is_quoted(value: Seq<char>) -> bool {
    value.len() >= 2 && (value[0] == '"' && value.last() == '"' || value[0] == '\'' && value.last()
        == '\'')
}

/// The value behind an equals sign.
pub open spec fn normalized(value: Seq<char>) -> Seq<char> {
    let trimmed = text::trim(value);
    if is_quoted(trimmed) {
        unescaped(trimmed.subrange(1, trimmed.len() - 1))
    } else {
        trimmed
    }
}

/// The form with the setting of that name set; names of no setting change nothing.
pub open spec fn with_setting(form: FormView, name: Seq<char>, value: Seq<char>) -> FormView {
    if name == ConfigKey::ByrUsername.spec_name() {
        FormView { byr_username: value, ..form }
    } else if name == ConfigKey::ByrPassword.spec_name() {
        FormView { byr_password: value, ..form }
    } else if name == ConfigKey::QbHost.spec_name() {
        FormView { qb_host: value, ..form }
    } else if name == ConfigKey::QbUsername.spec_name() {
        FormView { qb_username: value, ..form }
    } else if name == ConfigKey::QbPassword.spec_name() {
        FormView { qb_password: value, ..form }
    } else if name == ConfigKey::QbDownloadPath.spec_name() {
        FormView { qb_download_path: value, ..form }
    } else if name == ConfigKey::DownloadBudgetGb.spec_name() {
        FormView { download_budget_gb: value, ..form }
    } else if name == ConfigKey::IncludeCategories.spec_name() {
        FormView { include_categories: value, ..form }
    } else {
        form
    }
}

/// The form after one line of `.env` text: blank lines, comments and lines without an equals sign
/// change nothing.
pub open spec fn with_line(form: FormView, line: Seq<char>) -> FormView {
    let trimmed = text::trim(line);
    if trimmed.len() == 0 || trimmed[0] == '#' {
        form
    } else {
        match text::find(trimmed, seq!['=']) {
            None => form,
            Some(i) => with_setting(
                form,
                text::trim(trimmed.take(i)),
                normalized(trimmed.skip(i + 1)),
            ),
        }
    }
}

/// The form after some lines.
pub open spec fn with_lines(form: FormView, lines: Seq<Seq<char>>) -> FormView
    decreases lines.len(),
{
    if lines.len() == 0 {
        form
    } else {
        with_line(with_lines(form, lines.drop_last()), lines.last())
    }
}

/// The form with the settings that cannot be blank taken from the defaults where they are.
pub open spec fn with_defaults(form: FormView) -> FormView {
    FormView {
        qb_host: if text::is_blank(form.qb_host) {
            default_form().qb_host
        } else {
            form.qb_host
        },
        qb_username: if text::is_blank(form.qb_username) {
            default_form().qb_username
        } else {
            form.qb_username
        },
        qb_download_path: if text::is_blank(form.qb_download_path) {
            default_form().qb_download_path
        } else {
            form.qb_download_path
        },
        download_budget_gb: if text::is_blank(form.download_budget_gb) {
            default_form().download_budget_gb
        } else {
            form.download_budget_gb
        },
        ..form
    }
}

/// The form that `.env` text holds.
pub open spec fn parsed_form(content: Seq<char>) -> FormView {
    with_defaults(with_lines(default_form(), text::split(content, seq!['\n'])))
}

/// A line with a quoted value, and the line break.
pub open spec fn quoted_line(key: ConfigKey, value: Seq<char>) -> Seq<char> {
    key.spec_name() + seq!['=', '"'] + escaped(value) + seq!['"', '\n']
}

/// The `.env` text of a form.
pub open spec fn rendered_form(form: FormView) -> Seq<char> {
    quoted_line(ConfigKey::ByrUsername, form.byr_username) + quoted_line(
        ConfigKey::ByrPassword,
        form.byr_password,
    ) + seq!['\n'] + quoted_line(ConfigKey::QbHost, form.qb_host) + quoted_line(
        ConfigKey::QbUsername,
        form.qb_username,
    ) + quoted_line(ConfigKey::QbPassword, form.qb_password) + quoted_line(
        ConfigKey::QbDownloadPath,
        form.qb_download_path,
    ) + seq!['\n'] + ConfigKey::DownloadBudgetGb.spec_name() + seq!['='] + text::trim(
        form.download_budget_gb,
    ) + seq!['\n'] + quoted_line(ConfigKey::IncludeCategories, form.include_categories)
}

/// Escapes the backslashes and double quotes of a value.
pub fn escape_env_value(value: &str) -> (r: String)
    ensures
        r@ == escaped(value@),
{
    let backslash: [char; 1] = ['\\'];
    let two: [char; 2] = ['\\', '\\'];
    let quote: [char; 1] = ['"'];
    let marked: [char; 2] = ['\\', '"'];
    assert(backslash@ =~= seq!['\\']);
    assert(two@ =~= seq!['\\', '\\']);
    assert(quote@ =~= seq!['"']);
    assert(marked@ =~= seq!['\\', '"']);
    let doubled = text::replaced(text::chars(value).as_slice(), &backslash, &two);
    text::string(text::replaced(doubled.as_slice(), &quote, &marked).as_slice())
}

/// Trims a value and takes its quotes and escapes away.
pub fn normalize_env_value(value: &str) -> (r: String)
    ensures
        r@ == normalized(value@),
{
    let all = text::chars(value);
    let trimmed = text::trimmed(all.as_slice());
    let n: usize = trimmed.len();
    if n >= 2 && ((trimmed[0] == '"' && trimmed[n - 1] == '"') || (trimmed[0] == '\''
        && trimmed[n - 1] == '\'')) {
        let backslash: [char; 1] = ['\\'];
        let two: [char; 2] = ['\\', '\\'];
        let quote: [char; 1] = ['"'];
        let marked: [char; 2] = ['\\', '"'];
        assert(backslash@ =~= seq!['\\']);
        assert(two@ =~= seq!['\\', '\\']);
        assert(quote@ =~= seq!['"']);
        assert(marked@ =~= seq!['\\', '"']);
        let inner = slice_subrange(trimmed, 1, n - 1);
        let unquoted = text::replaced(inner, &marked, &quote);
        text::string(text::replaced(unquoted.as_slice(), &two, &backslash).as_slice())
    } else {
        text::string(trimmed)
    }
}

impl ConfigForm {
    fn set(&mut self, name: &[char], value: String)
        ensures
            final(self)@ == with_setting(old(self)@, name@, value@),
    {
        if text::same(name, text::chars(ConfigKey::ByrUsername.name()).as_slice()) {
            self.byr_username = value;
        } else if text::same(name, text::chars(ConfigKey::ByrPassword.name()).as_slice()) {
            self.byr_password = value;
        } else if text::same(name, text::chars(ConfigKey::QbHost.name()).as_slice()) {
            self.qb_host = value;
        } else if text::same(name, text::chars(ConfigKey::QbUsername.name()).as_slice()) {
            self.qb_username = value;
        } else if text::same(name, text::chars(ConfigKey::QbPassword.name()).as_slice()) {
            self.qb_password = value;
        } else if text::same(name, text::chars(ConfigKey::QbDownloadPath.name()).as_slice()) {
            self.qb_download_path = value;
        } else if text::same(name, text::chars(ConfigKey::DownloadBudgetGb.name()).as_slice()) {
            self.download_budget_gb = value;
        } else if text::same(name, text::chars(ConfigKey::IncludeCategories.name()).as_slice()) {
            self.include_categories = value;
        }
    }

    fn read_line(&mut self, line: &[char])
        ensures
            final(self)@ == with_line(old(self)@, line@),
    {
        let trimmed = text::trimmed(line);
        if trimmed.len() == 0 || trimmed[0] == '#' {
            return ;
        }
        let equals: [char; 1] = ['='];
        assert(equals@ =~= seq!['=']);
        match text::position(trimmed, &equals) {
            None => {},
            Some(i) => {
                let name = text::trimmed(slice_subrange(trimmed, 0, i));
                let behind = text::string(slice_subrange(trimmed, i + 1, trimmed.len()));
                let value = normalize_env_value(behind.as_str());
                self.set(name, value);
            },
        }
    }

    fn fill_blanks(&mut self)
        ensures
            final(self)@ == with_defaults(old(self)@),
    {
        if text::blank(self.qb_host.as_str()) {
            self.qb_host = String::from_str("http://127.0.0.1:8080");
        }
        if text::blank(self.qb_username.as_str()) {
            self.qb_username = String::from_str("admin");
        }
        if text::blank(self.qb_download_path.as_str()) {
            self.qb_download_path = String::from_str("H:/BT");
        }
        if text::blank(self.download_budget_gb.as_str()) {
            self.download_budget_gb = String::from_str("200");
        }
    }

    /// The form that `.env` text holds.
    pub fn parse_env(content: &str) -> (r: Self)
        ensures
            r@ == parsed_form(content@),
    {
        let mut form = ConfigForm::default();
        let line_end: [char; 1] = ['\n'];
        assert(line_end@ =~= seq!['\n']);
        let lines = text::pieces(text::chars(content).as_slice(), &line_end);
        let ghost all = text::split(content@, seq!['\n']);
        let mut i: usize = 0;
        while i < lines.len()
            invariant
                i <= lines@.len(),
                text::views(lines@) == all,
                form@ == with_lines(default_form(), all.take(i as int)),
            decreases lines@.len() - i,
        {
            assert(all.take(i + 1).drop_last() =~= all.take(i as int));
            assert(text::views(lines@)[i as int] == lines@[i as int]@);
            form.read_line(lines[i].as_slice());
            i = i + 1;
        }
        assert(all.take(all.len() as int) =~= all);
        form.fill_blanks();
        form
    }
}

fn append_quoted_line(content: &mut String, key: ConfigKey, value: &str)
    ensures
        final(content)@ == old(content)@ + quoted_line(key, value@),
{
    let ghost before = content@;
    content.append(key.name());
    content.push('=');
    content.push('"');
    content.append(escape_env_value(value).as_str());
    content.push('"');
    content.push('\n');
    assert(content@ =~= before + quoted_line(key, value@));
}

impl ConfigForm {
    /// The `.env` text of the form.
    pub fn render_env(&self) -> (r: String)
        ensures
            r@ == rendered_form(self@),
    {
        let mut content = String::new();
        append_quoted_line(&mut content, ConfigKey::ByrUsername, self.byr_username.as_str());
        append_quoted_line(&mut content, ConfigKey::ByrPassword, self.byr_password.as_str());
        content.push('\n');
        append_quoted_line(&mut content, ConfigKey::QbHost, self.qb_host.as_str());
        append_quoted_line(&mut content, ConfigKey::QbUsername, self.qb_username.as_str());
        append_quoted_line(&mut content, ConfigKey::QbPassword, self.qb_password.as_str());
        append_quoted_line(&mut content, ConfigKey::QbDownloadPath, self.qb_download_path.as_str());
        content.push('\n');
        content.append(ConfigKey::DownloadBudgetGb.name());
        content.push('=');
        content.append(text::trimmed_text(self.download_budget_gb.as_str()).as_str());
        content.push('\n');
        append_quoted_line(
            &mut content,
            ConfigKey::IncludeCategories,
            self.include_categories.as_str(),
        );
        assert(content@ =~= rendered_form(self@));
        content
    }
}

/// The texts of some strings.
pub open spec fn texts(strings: Seq<String>) -> Seq<Seq<char>> {
    strings.map_values(|s: String| s@)
}

/// The parts of a list between commas, trimmed, without the blank ones.
pub open spec fn listed(list: Seq<char>) -> Seq<Seq<char>> {
    text::split(list, seq![',']).map_values(|part: Seq<char>| text::trim(part)).filter(
        |part: Seq<char>| part.len() > 0,
    )
}

/// The categories that a list names; no filter at all where it names none.
pub open spec fn category_filter(list: Seq<char>) -> Option<Seq<Seq<char>>> {
    if listed(list).len() == 0 {
        None
    } else {
        Some(listed(list))
    }
}

/// The names of an optional list.
pub open spec fn optional_texts(list: Option<Vec<String>>) -> Option<Seq<Seq<char>>> {
    match list {
        Some(strings) => Some(texts(strings@)),
        None => None,
    }
}

/// The categories that a list names, if any.
pub fn parse_category_filter(value: Option<String>) -> (r: Option<Vec<String>>)
    ensures
        match value {
            Some(list) => optional_texts(r) == category_filter(list@),
            None => r is None,
        },
{
    match value {
        None => None,
        Some(list) => {
            let comma: [char; 1] = [','];
            assert(comma@ =~= seq![',']);
            let parts = text::pieces(text::chars(list.as_str()).as_slice(), &comma);
            let ghost trimmed = text::split(list@, seq![',']).map_values(
                |part: Seq<char>| text::trim(part),
            );
            let ghost named = |part: Seq<char>| part.len() > 0;
            let mut items: Vec<String> = Vec::new();
            let mut i: usize = 0;
            proof {
                reveal(Seq::filter);
            }
            assert(texts(items@) =~= trimmed.take(0).filter(named));
            while i < parts.len()
                invariant
                    i <= parts@.len(),
                    text::views(parts@) == text::split(list@, seq![',']),
                    trimmed == text::split(list@, seq![',']).map_values(
                        |part: Seq<char>| text::trim(part),
                    ),
                    named == (|part: Seq<char>| part.len() > 0),
                    texts(items@) == trimmed.take(i as int).filter(named),
                decreases parts@.len() - i,
            {
                assert(text::views(parts@)[i as int] == parts@[i as int]@);
                let part = text::trimmed(parts[i].as_slice());
                proof {
                    reveal(Seq::filter);
                    assert(trimmed.take(i + 1).drop_last() =~= trimmed.take(i as int));
                }
                if part.len() > 0 {
                    let ghost before = texts(items@);
                    items.push(text::string(part));
                    assert(texts(items@) =~= before.push(part@));
                }
                i = i + 1;
            }
            assert(trimmed.take(trimmed.len() as int) =~= trimmed);
            assert(texts(items@).len() == items@.len());
            if items.len() == 0 {
                None
            } else {
                Some(items)
            }
        },
    }
}

/// The first setting among these that is blank.
pub open spec fn missing_setting(form: FormView) -> Option<ConfigKey> {
    if text::is_blank(form.byr_username) {
        Some(ConfigKey::ByrUsername)
    } else if text::is_blank(form.byr_password) {
        Some(ConfigKey::ByrPassword)
    } else if text::is_blank(form.qb_host) {
        Some(ConfigKey::QbHost)
    } else if text::is_blank(form.qb_username) {
        Some(ConfigKey::QbUsername)
    } else if text::is_blank(form.qb_password) {
        Some(ConfigKey::QbPassword)
    } else {
        None
    }
}

/// What is wrong with a budget; a blank one is none.
pub open spec fn budget_error(budget: Seq<char>) -> Option<ConfigError> {
    if text::is_blank(budget) {
        None
    } else {
        match decimal::number(text::trim(budget)) {
            None => Some(ConfigError::BudgetNotNumber),
            Some(number) => if number.at_most_zero() {
                Some(ConfigError::BudgetNotPositive)
            } else {
                None
            },
        }
    }
}

/// Why a form is no configuration, if it is none.
pub open spec fn form_error(form: FormView) -> Option<ConfigError> {
    match missing_setting(form) {
        Some(key) => Some(ConfigError::Missing(key)),
        None => budget_error(form.download_budget_gb),
    }
}

/// The configuration of a form without errors. The form has no settings for the removal of old
/// torrents, so nothing is removed.
pub open spec fn is_config_of(config: Config, form: FormView, dry_run: bool) -> bool {
    &&& config.byr_username@ == text::trim(form.byr_username)
    &&& config.byr_password@ == form.byr_password
    &&& config.qb_host@ == text::trim_end_char(text::trim(form.qb_host), '/')
    &&& config.qb_username@ == text::trim(form.qb_username)
    &&& config.qb_password@ == form.qb_password
    &&& config.qb_download_path@ == (if text::is_blank(form.qb_download_path) {
        "H:/BT"@
    } else {
        text::trim(form.qb_download_path)
    })
    &&& config.dry_run == dry_run
    &&& optional_texts(config.include_categories) == category_filter(form.include_categories)
    &&& !config.auto_rotate_enabled
    &&& config.max_remove_per_cycle == 0
    &&& config.min_seeding_hours_before_remove == 0
    &&& config.max_leechers_for_stale == 0
    &&& config.max_recent_upspeed_kib == 0
}

/// A blank setting is missing.
pub fn validate_required(key: ConfigKey, value: &str) -> (r: Result<(), ConfigError>)
    ensures
        r == (if text::is_blank(value@) {
            Err::<(), ConfigError>(ConfigError::Missing(key))
        } else {
            Ok(())
        }),
{
    if text::blank(value) {
        return Err(ConfigError::Missing(key));
    }
    Ok(())
}

/// A budget that is not blank is a number above zero.
fn check_budget(value: &str) -> (r: Result<(), ConfigError>)
    ensures
        r == (match budget_error(value@) {
            Some(error) => Err::<(), ConfigError>(error),
            None => Ok(()),
        }),
{
    let all = text::chars(value);
    let budget = text::trimmed(all.as_slice());
    if budget.len() > 0 {
        match decimal::read_number(budget) {
            None => {
                return Err(ConfigError::BudgetNotNumber);
            },
            Some(number) => {
                if number.is_at_most_zero() {
                    return Err(ConfigError::BudgetNotPositive);
                }
            },
        }
    }
    Ok(())
}

/// A change to the process environment: a variable that is set, or removed where there is no value.
#[derive(Debug)]
pub struct EnvChange {
    pub key: ConfigKey,
    pub value: Option<String>,
}

impl EnvChange {
    /// This change sets `key` to the trimmed `value`, or removes it where that is blank.
    pub open spec fn is_of(self, key: ConfigKey, value: Seq<char>) -> bool {
        self.key == key && match self.value {
            Some(text) => !text::is_blank(value) && text@ == text::trim(value),
            None => text::is_blank(value),
        }
    }
}

/// The change that one setting makes to the process environment.
pub fn set_or_remove(key: ConfigKey, value: &str) -> (r: EnvChange)
    ensures
        r.is_of(key, value@),
{
    if text::blank(value) {
        EnvChange { key, value: None }
    } else {
        EnvChange { key, value: Some(text::trimmed_text(value)) }
    }
}

impl ConfigForm {
    /// The checked configuration.
    pub fn into_core_config(&self, dry_run: bool) -> (r: Result<Config, ConfigError>)
        ensures
            match r {
                Ok(config) => form_error(self@) is None && is_config_of(config, self@, dry_run),
                Err(error) => form_error(self@) == Some(error),
            },
    {
        validate_required(ConfigKey::ByrUsername, self.byr_username.as_str())?;
        validate_required(ConfigKey::ByrPassword, self.byr_password.as_str())?;
        validate_required(ConfigKey::QbHost, self.qb_host.as_str())?;
        validate_required(ConfigKey::QbUsername, self.qb_username.as_str())?;
        validate_required(ConfigKey::QbPassword, self.qb_password.as_str())?;
        check_budget(self.download_budget_gb.as_str())?;
        let host = text::chars(self.qb_host.as_str());
        Ok(
            Config {
                byr_username: text::trimmed_text(self.byr_username.as_str()),
                byr_password: self.byr_password.clone(),
                qb_host: text::string(text::without_end(text::trimmed(host.as_slice()), '/')),
                qb_username: text::trimmed_text(self.qb_username.as_str()),
                qb_password: self.qb_password.clone(),
                qb_download_path: if text::blank(self.qb_download_path.as_str()) {
                    String::from_str("H:/BT")
                } else {
                    text::trimmed_text(self.qb_download_path.as_str())
                },
                dry_run,
                include_categories: parse_category_filter(Some(self.include_categories.clone())),
                auto_rotate_enabled: false,
                max_remove_per_cycle: 0,
                min_seeding_hours_before_remove: 0,
                max_leechers_for_stale: 0,
                max_recent_upspeed_kib: 0,
            },
        )
    }

    /// The changes that bring the process environment in line with the form, in order.
    pub fn apply_process_env(&self) -> (r: Vec<EnvChange>)
        ensures
            r@.len() == 8,
            r@[0].is_of(ConfigKey::ByrUsername, self@.byr_username),
            r@[1].is_of(ConfigKey::ByrPassword, self@.byr_password),
            r@[2].is_of(ConfigKey::QbHost, self@.qb_host),
            r@[3].is_of(ConfigKey::QbUsername, self@.qb_username),
            r@[4].is_of(ConfigKey::QbPassword, self@.qb_password),
            r@[5].is_of(ConfigKey::QbDownloadPath, self@.qb_download_path),
            r@[6].is_of(ConfigKey::DownloadBudgetGb, self@.download_budget_gb),
            r@[7].is_of(ConfigKey::IncludeCategories, self@.include_categories),
    {
        let mut changes: Vec<EnvChange> = Vec::new();
        changes.push(set_or_remove(ConfigKey::ByrUsername, self.byr_username.as_str()));
        changes.push(set_or_remove(ConfigKey::ByrPassword, self.byr_password.as_str()));
        changes.push(set_or_remove(ConfigKey::QbHost, self.qb_host.as_str()));
        changes.push(set_or_remove(ConfigKey::QbUsername, self.qb_username.as_str()));
        changes.push(set_or_remove(ConfigKey::QbPassword, self.qb_password.as_str()));
        changes.push(set_or_remove(ConfigKey::QbDownloadPath, self.qb_download_path.as_str()));
        changes.push(set_or_remove(ConfigKey::DownloadBudgetGb, self.download_budget_gb.as_str()));
        changes.push(set_or_remove(ConfigKey::IncludeCategories, self.include_categories.as_str()));
        changes
    }
}

} // verus!
