//! Where the settings come from when the program starts.

use crate::config;
use crate::config::ConfigForm;
use vstd::prelude::*;
use vstd::std_specs::cmp::PartialEqSpec;
use vstd::string::*;

verus! {

/// The identifier under which the settings were kept before.
pub const PREVIOUS_APP_IDENTIFIER: &'static str = "com.byrbot.desktop";

/// The places that are neither the target nor equal to one before them, in order.
pub open spec fn distinct<T: PartialEq>(target: T, proposed: Seq<T>) -> Seq<T>
    decreases proposed.len(),
{
    if proposed.len() == 0 {
        Seq::empty()
    } else {
        let before = distinct(target, proposed.drop_last());
        let place = proposed.last();
        if place.eq_spec(&target) || exists|i: int|
            0 <= i < before.len() && (#[trigger] before[i]).eq_spec(&place) {
            before
        } else {
            before.push(place)
        }
    }
}

/// Whether one of the places is equal to another.
fn holds_equal<T: PartialEq>(places: &Vec<T>, place: &T) -> (r: bool)
    ensures
        T::obeys_eq_spec() ==> r == exists|i: int|
            0 <= i < places@.len() && (#[trigger] places@[i]).eq_spec(place),
{
    let mut i: usize = 0;
    while i < places.len()
        invariant
            i <= places@.len(),
            T::obeys_eq_spec() ==> forall|j: int|
                0 <= j < i ==> !(#[trigger] places@[j]).eq_spec(place),
        decreases places@.len() - i,
    {
        if places[i].eq(place) {
            return true;
        }
        i = i + 1;
    }
    false
}

/// The places where older settings may lie, out of those that come into question: none is the
/// target, and none is named twice. This holds as far as the equality of places does what it says.
pub fn legacy_config_paths<T: PartialEq>(target: &T, proposed: Vec<T>) -> (r: Vec<T>)
    ensures
        T::obeys_eq_spec() ==> r@ == distinct(*target, proposed@),
        forall|i: int| 0 <= i < r@.len() ==> proposed@.contains(#[trigger] r@[i]),
{
    let ghost all = proposed@;
    let mut left = proposed;
    let mut places: Vec<T> = Vec::new();
    assert(all.take(0) =~= Seq::<T>::empty());
    while left.len() > 0
        invariant
            left@.len() <= all.len(),
            left@ == all.skip(all.len() - left@.len()),
            T::obeys_eq_spec() ==> places@ == distinct(*target, all.take(all.len() - left@.len())),
            forall|i: int| 0 <= i < places@.len() ==> all.contains(#[trigger] places@[i]),
        decreases left@.len(),
    {
        let ghost n = all.len() - left@.len();
        let place = left.remove(0);
        assert(place == all[n]);
        assert(left@ =~= all.skip(n + 1));
        assert(all.take(n + 1).drop_last() =~= all.take(n));
        if !place.eq(target) && !holds_equal(&places, &place) {
            places.push(place);
        }
    }
    assert(all.take(all.len() as int) =~= all);
    places
}

/// Where the settings come from.
#[derive(Debug)]
pub enum Source {
    /// From where they belong.
    Current,
    /// From an older place, by its number.
    Legacy(usize),
    /// From nowhere: these are the first.
    Fresh,
}

/// Where the settings come from: from where they belong if they are there, or else from the first
/// older place that holds some.
pub fn choose_source(current_exists: bool, legacy_exists: &[bool]) -> (r: Source)
    ensures
        match r {
            Source::Current => current_exists,
            Source::Legacy(i) => {
                &&& !current_exists
                &&& i < legacy_exists@.len()
                &&& legacy_exists@[i as int]
                &&& forall|j: int| 0 <= j < i ==> !legacy_exists@[j]
            },
            Source::Fresh => !current_exists && forall|j: int|
                0 <= j < legacy_exists@.len() ==> !legacy_exists@[j],
        },
{
    if current_exists {
        return Source::Current;
    }
    let mut i: usize = 0;
    while i < legacy_exists.len()
        invariant
            !current_exists,
            i <= legacy_exists@.len(),
            forall|j: int| 0 <= j < i ==> !legacy_exists@[j],
        decreases legacy_exists@.len() - i,
    {
        if legacy_exists[i] {
            return Source::Legacy(i);
        }
        i = i + 1;
    }
    Source::Fresh
}

/// What the program starts with: the settings, what to tell of them, and what went wrong.
#[derive(Debug)]
pub struct Startup {
    pub form: ConfigForm,
    pub notes: Vec<String>,
    pub error: Option<String>,
}

/// The texts of a start.
#[verifier::ext_equal]
pub struct StartupView {
    pub form: config::FormView,
    pub notes: Seq<Seq<char>>,
    pub error: Option<Seq<char>>,
}

impl View for Startup {
    type V = StartupView;

    open spec fn view(&self) -> StartupView {
        StartupView {
            form: self.form@,
            notes: config::texts(self.notes@),
            error: match self.error {
                Some(message) => Some(message@),
                None => None,
            },
        }
    }
}

/// The start with the settings from where they belong, or the default ones where they could not be
/// read.
pub fn start_current(loaded: Result<ConfigForm, String>) -> (r: Startup)
    ensures
        r@ == (match loaded {
            Ok(form) => StartupView { form: form@, notes: Seq::empty(), error: None },
            Err(cause) => StartupView {
                form: config::default_form(),
                notes: Seq::empty(),
                error: Some("配置加载失败: "@ + cause@),
            },
        }),
{
    let r = match loaded {
        Ok(form) => Startup { form, notes: Vec::new(), error: None },
        Err(cause) => {
            let mut message = String::from_str("配置加载失败: ");
            message.append(cause.as_str());
            Startup { form: ConfigForm::default(), notes: Vec::new(), error: Some(message) }
        },
    };
    assert(config::texts(r.notes@) =~= Seq::<Seq<char>>::empty());
    r
}

/// The start with the settings from an older place, which were written to where they belong.
pub fn start_migrated(
    config_path: &str,
    legacy_path: &str,
    form: ConfigForm,
    saved: Result<(), String>,
) -> (r: Startup)
    ensures
        r@ == (match saved {
            Ok(_) => StartupView {
                form: form@,
                notes: seq![
                    "检测到旧配置，正在迁移到用户目录: "@ + config_path@,
                    "配置迁移来源: "@ + legacy_path@,
                ],
                error: None,
            },
            Err(cause) => StartupView {
                form: form@,
                notes: seq!["检测到旧配置，正在迁移到用户目录: "@ + config_path@],
                error: Some(
                    "已从旧配置 "@ + legacy_path@ + " 读取，但写入新配置目录失败: "@ + cause@,
                ),
            },
        }),
{
    let mut notes: Vec<String> = Vec::new();
    let mut found = String::from_str("检测到旧配置，正在迁移到用户目录: ");
    found.append(config_path);
    notes.push(found);
    match saved {
        Ok(_) => {
            let mut origin = String::from_str("配置迁移来源: ");
            origin.append(legacy_path);
            notes.push(origin);
            assert(config::texts(notes@) =~= seq![
                "检测到旧配置，正在迁移到用户目录: "@ + config_path@,
                "配置迁移来源: "@ + legacy_path@,
            ]);
            Startup { form, notes, error: None }
        },
        Err(cause) => {
            let mut message = String::from_str("已从旧配置 ");
            message.append(legacy_path);
            message.append(" 读取，但写入新配置目录失败: ");
            message.append(cause.as_str());
            assert(config::texts(notes@) =~= seq![
                "检测到旧配置，正在迁移到用户目录: "@ + config_path@,
            ]);
            Startup { form, notes, error: Some(message) }
        },
    }
}

/// The start with the default settings, for those in an older place could not be read.
pub fn start_unmigrated(legacy_path: &str, cause: &str) -> (r: Startup)
    ensures
        r@ == (StartupView {
            form: config::default_form(),
            notes: Seq::empty(),
            error: Some("旧配置加载失败 ("@ + legacy_path@ + "): "@ + cause@),
        }),
{
    let mut message = String::from_str("旧配置加载失败 (");
    message.append(legacy_path);
    message.append("): ");
    message.append(cause);
    let r = Startup { form: ConfigForm::default(), notes: Vec::new(), error: Some(message) };
    assert(config::texts(r.notes@) =~= Seq::<Seq<char>>::empty());
    r
}

/// The first start.
pub fn start_fresh(config_path: &str) -> (r: Startup)
    ensures
        r@ == (StartupView {
            form: config::default_form(),
            notes: seq!["首次启动将在此创建配置: "@ + config_path@],
            error: None,
        }),
{
    let mut note = String::from_str("首次启动将在此创建配置: ");
    note.append(config_path);
    let mut notes: Vec<String> = Vec::new();
    notes.push(note);
    assert(config::texts(notes@) =~= seq!["首次启动将在此创建配置: "@ + config_path@]);
    Startup { form: ConfigForm::default(), notes, error: None }
}

/// The lines that are logged at the start.
pub open spec fn startup_lines(config_path: Seq<char>, startup: StartupView) -> Seq<Seq<char>> {
    let told = seq!["Tauri shell ready"@, "配置文件: "@ + config_path] + startup.notes;
    match startup.error {
        Some(message) => told.push(message),
        None => told,
    }
}

/// The lines that are logged at the start.
pub fn startup_log(config_path: &str, startup: &Startup) -> (r: Vec<String>)
    ensures
        config::texts(r@) == startup_lines(config_path@, startup@),
{
    let mut log: Vec<String> = Vec::new();
    log.push(String::from_str("Tauri shell ready"));
    let mut line = String::from_str("配置文件: ");
    line.append(config_path);
    log.push(line);
    let ghost head = seq!["Tauri shell ready"@, "配置文件: "@ + config_path@];
    let ghost notes = config::texts(startup.notes@);
    assert(config::texts(log@) =~= head + notes.take(0));
    let mut i: usize = 0;
    while i < startup.notes.len()
        invariant
            i <= startup.notes@.len(),
            notes == config::texts(startup.notes@),
            config::texts(log@) == head + notes.take(i as int),
        decreases startup.notes@.len() - i,
    {
        let ghost before = config::texts(log@);
        log.push(startup.notes[i].clone());
        assert(config::texts(log@) =~= before.push(notes[i as int]));
        assert(head + notes.take(i + 1) =~= (head + notes.take(i as int)).push(notes[i as int]));
        i = i + 1;
    }
    assert(notes.take(notes.len() as int) =~= notes);
    match &startup.error {
        Some(message) => {
            let ghost before = config::texts(log@);
            log.push(message.clone());
            assert(config::texts(log@) =~= before.push(message@));
        },
        None => {},
    }
    log
}

/// The line that is logged once the settings were saved.
pub fn saved_line(config_path: &str) -> (r: String)
    ensures
        r@ == "已保存配置到 "@ + config_path@,
{
    let mut line = String::from_str("已保存配置到 ");
    line.append(config_path);
    line
}

} // verus!
