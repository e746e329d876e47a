//! The module's words in English and Ukrainian, and the choices the report
//! form offers.
//!
//! A choice is shown translated but means something fixed: the form answers
//! with the label it showed, so a label leads back to its meaning only in the
//! language it was shown in.

use vstd::prelude::*;

use crate::text::{lemma_string_views_push, owned, string_views};

verus! {

/// A language the module speaks.
#[derive(Clone, Copy, Debug, PartialEq, Eq)]
pub enum Lang {
    En,
    Uk,
}

/// The language a locale code selects: Ukrainian for `uk`, English (the
/// default and fallback) for anything else.
pub open spec fn lang_of(code: Seq<char>) -> Lang {
    if code == "uk"@ {
        Lang::Uk
    } else {
        Lang::En
    }
}

/// The language a locale code selects.
pub fn parse_lang(code: &str) -> (r: Lang)
    ensures
        r == lang_of(code@),
{
    if crate::text::eq_str(code, "uk") {
        Lang::Uk
    } else {
        Lang::En
    }
}

/// A phrase the module shows.
#[derive(Clone, Copy, Debug, PartialEq, Eq)]
pub enum Msg {
    /// The module's title.
    Title,
    /// What the landing view says.
    ScanHint,
    /// The button that starts a scan.
    Scan,
    /// The button that scans again.
    Refresh,
    /// The button (and view) for a report.
    MakeReport,
    /// The search box's label.
    Search,
    /// The search box's placeholder.
    SearchPlaceholder,
    /// How the table is used.
    ActionsHint,
    /// What is shown when nothing matches.
    NoMatches,
    /// Starts the range line.
    Showing,
    /// Between the first and the last row shown.
    RangeDash,
    /// Before the number of matches.
    Of,
    /// Before the page number.
    PageWord,
    /// Between the page and the page count.
    PageSlash,
    /// Starts the results heading.
    HeadingOpen,
    /// Ends the count in the results heading.
    HeadingClose,
    /// A column heading.
    ColName,
    /// A column heading.
    ColVersion,
    /// A column heading.
    ColPublisher,
    /// A column heading.
    ColSource,
    /// A column heading.
    ColScope,
    /// A column heading.
    ColLocation,
    /// The menu item for an entry's details.
    About,
    /// Opens an install folder.
    OpenLocation,
    /// Opens an entry's file.
    OpenFile,
    /// Shows the path in the file manager.
    Reveal,
    /// Copies the path.
    CopyPath,
    /// The pager's backward button.
    Prev,
    /// The pager's forward button.
    Next,
    /// Bridges pages the pager leaves out.
    Gap,
    /// Stands for a field with no value.
    EmptyValue,
    /// The title of a view about a row that is gone.
    StaleTitle,
    /// What such a view says.
    StaleText,
    /// Heads the report form.
    ReportOptions,
    /// Labels the format choice.
    Output,
    /// Labels the content choice.
    Include,
    /// Labels the scope choice.
    Show,
    /// Submits the report form.
    Generate,
    /// A format choice.
    FormatView,
    /// A format choice.
    FormatMarkdown,
    /// A format choice.
    FormatHtml,
    /// A format choice.
    FormatCsv,
    /// A content choice.
    ContentAll,
    /// A content choice.
    ContentTables,
    /// A content choice.
    ContentCharts,
    /// A scope choice.
    ScopeAll,
    /// A scope choice.
    ScopeSystem,
    /// A scope choice.
    ScopeUser,
    /// The title of a report outcome.
    Report,
    /// Says a document was written.
    ReportExported,
    /// Explains where it went.
    ReportExportedText,
    /// Says the provider failed.
    ReportFailed,
    /// The report document's title.
    DocTitle,
    /// Follows the total in the subtitle.
    DocPrograms,
    /// Follows the system count in the subtitle.
    DocSystem,
    /// Follows the user count in the subtitle.
    DocUser,
    /// Starts the total line of the summary.
    DocTotal,
    /// Starts the system line of the summary.
    DocSystemWide,
    /// Starts the user line of the summary.
    DocUserLine,
    /// The chart's title.
    ChartTitle,
    /// The table section's heading.
    SectionHeading,
    /// The menu item for an entry's details in a tab of their own.
    AboutTab,
    /// Closes a pop-up.
    Close,
    /// The notice about a row that is gone.
    Gone,
    /// The notice when nothing opens.
    NothingToOpen,
    /// The notice when there is no path to copy.
    NothingToCopy,
    /// The notice after a copy.
    Copied,
    /// The notice when no clipboard tool answered.
    NoClipboard,
    /// Starts the notice after a scan.
    ScannedOpen,
    /// Ends the notice after a scan.
    ScannedClose,
}

/// What a phrase says in a language.
pub open spec fn msg(lang: Lang, m: Msg) -> Seq<char> {
    match m {
        Msg::Title => if lang == Lang::Uk {
            "Програми"@
        } else {
            "Programs"@
        },
        Msg::ScanHint => if lang == Lang::Uk {
            "Проскануйте цей комп’ютер, щоб знайти встановлені програми."@
        } else {
            "Scan this machine for installed programs."@
        },
        Msg::Scan => if lang == Lang::Uk {
            "Сканувати"@
        } else {
            "Scan"@
        },
        Msg::Refresh => if lang == Lang::Uk {
            "Оновити"@
        } else {
            "Refresh"@
        },
        Msg::MakeReport => if lang == Lang::Uk {
            "Створити звіт"@
        } else {
            "Make Report"@
        },
        Msg::Search => if lang == Lang::Uk {
            "Пошук"@
        } else {
            "Search"@
        },
        Msg::SearchPlaceholder => if lang == Lang::Uk {
            "назва, версія, видавець, джерело, розташування…"@
        } else {
            "name, version, publisher, source, location…"@
        },
        Msg::ActionsHint => if lang == Lang::Uk {
            "Клацніть рядок правою кнопкою, щоб побачити дії; двічі — щоб відкрити подробиці."@
        } else {
            "Right-click a row for actions; double-click to open its details."@
        },
        Msg::NoMatches => if lang == Lang::Uk {
            "немає збігів"@
        } else {
            "no matches"@
        },
        Msg::Showing => if lang == Lang::Uk {
            "показано "@
        } else {
            "showing "@
        },
        Msg::RangeDash => "–"@,
        Msg::Of => if lang == Lang::Uk {
            " з "@
        } else {
            " of "@
        },
        Msg::PageWord => if lang == Lang::Uk {
            " · сторінка "@
        } else {
            " · page "@
        },
        Msg::PageSlash => "/"@,
        Msg::HeadingOpen => if lang == Lang::Uk {
            "Встановлені програми ("@
        } else {
            "Installed programs ("@
        },
        Msg::HeadingClose => ") — "@,
        Msg::ColName => if lang == Lang::Uk {
            "Назва"@
        } else {
            "Name"@
        },
        Msg::ColVersion => if lang == Lang::Uk {
            "Версія"@
        } else {
            "Version"@
        },
        Msg::ColPublisher => if lang == Lang::Uk {
            "Видавець"@
        } else {
            "Publisher"@
        },
        Msg::ColSource => if lang == Lang::Uk {
            "Джерело"@
        } else {
            "Source"@
        },
        Msg::ColScope => if lang == Lang::Uk {
            "Область"@
        } else {
            "Scope"@
        },
        Msg::ColLocation => if lang == Lang::Uk {
            "Розташування"@
        } else {
            "Location"@
        },
        Msg::About => if lang == Lang::Uk {
            "Про програму"@
        } else {
            "About"@
        },
        Msg::OpenLocation => if lang == Lang::Uk {
            "Відкрити розташування"@
        } else {
            "Open location"@
        },
        Msg::OpenFile => if lang == Lang::Uk {
            "Відкрити файл"@
        } else {
            "Open file"@
        },
        Msg::Reveal => if lang == Lang::Uk {
            "Показати у файловому менеджері"@
        } else {
            "Show in Explorer"@
        },
        Msg::CopyPath => if lang == Lang::Uk {
            "Копіювати шлях"@
        } else {
            "Copy path"@
        },
        Msg::Prev => if lang == Lang::Uk {
            "‹ Назад"@
        } else {
            "‹ Prev"@
        },
        Msg::Next => if lang == Lang::Uk {
            "Далі ›"@
        } else {
            "Next ›"@
        },
        Msg::Gap => "…"@,
        Msg::EmptyValue => "—"@,
        Msg::StaleTitle => if lang == Lang::Uk {
            "Програма"@
        } else {
            "Program"@
        },
        Msg::StaleText => if lang == Lang::Uk {
            "Цього запису немає в останньому скануванні — проскануйте ще раз і спробуйте знову."@
        } else {
            "This entry isn't in the latest scan — re-scan and try again."@
        },
        Msg::ReportOptions => if lang == Lang::Uk {
            "Параметри звіту"@
        } else {
            "Report options"@
        },
        Msg::Output => if lang == Lang::Uk {
            "Формат"@
        } else {
            "Output"@
        },
        Msg::Include => if lang == Lang::Uk {
            "Включити"@
        } else {
            "Include"@
        },
        Msg::Show => if lang == Lang::Uk {
            "Показати"@
        } else {
            "Show"@
        },
        Msg::Generate => if lang == Lang::Uk {
            "Створити"@
        } else {
            "Generate"@
        },
        Msg::FormatView => if lang == Lang::Uk {
            "Перегляд у застосунку"@
        } else {
            "In-app view"@
        },
        Msg::FormatMarkdown => "Markdown"@,
        Msg::FormatHtml => "HTML"@,
        Msg::FormatCsv => "CSV"@,
        Msg::ContentAll => if lang == Lang::Uk {
            "Таблиці та діаграми"@
        } else {
            "Tables and charts"@
        },
        Msg::ContentTables => if lang == Lang::Uk {
            "Лише таблиці"@
        } else {
            "Tables only"@
        },
        Msg::ContentCharts => if lang == Lang::Uk {
            "Лише діаграми"@
        } else {
            "Charts only"@
        },
        Msg::ScopeAll => if lang == Lang::Uk {
            "Усі програми"@
        } else {
            "All programs"@
        },
        Msg::ScopeSystem => if lang == Lang::Uk {
            "Лише системні"@
        } else {
            "System only"@
        },
        Msg::ScopeUser => if lang == Lang::Uk {
            "Лише користувацькі"@
        } else {
            "User only"@
        },
        Msg::Report => if lang == Lang::Uk {
            "Звіт"@
        } else {
            "Report"@
        },
        Msg::ReportExported => if lang == Lang::Uk {
            "Звіт експортовано"@
        } else {
            "Report exported"@
        },
        Msg::ReportExportedText => if lang == Lang::Uk {
            "Документ створено й відкрито в програмі за замовчуванням."@
        } else {
            "The document was generated and opened in your default app."@
        },
        Msg::ReportFailed => if lang == Lang::Uk {
            "Не вдалося створити звіт"@
        } else {
            "Couldn't build the report"@
        },
        Msg::DocTitle => if lang == Lang::Uk {
            "Звіт про встановлені програми"@
        } else {
            "Installed Programs Report"@
        },
        Msg::DocPrograms => if lang == Lang::Uk {
            " програм · "@
        } else {
            " programs · "@
        },
        Msg::DocSystem => if lang == Lang::Uk {
            " системних · "@
        } else {
            " system · "@
        },
        Msg::DocUser => if lang == Lang::Uk {
            " користувацьких"@
        } else {
            " user"@
        },
        Msg::DocTotal => if lang == Lang::Uk {
            "Усього програм: "@
        } else {
            "Total programs: "@
        },
        Msg::DocSystemWide => if lang == Lang::Uk {
            "Загальносистемних: "@
        } else {
            "System-wide: "@
        },
        Msg::DocUserLine => if lang == Lang::Uk {
            "Користувацьких: "@
        } else {
            "User: "@
        },
        Msg::ChartTitle => if lang == Lang::Uk {
            "Програми за джерелом"@
        } else {
            "Programs by source"@
        },
        Msg::SectionHeading => if lang == Lang::Uk {
            "Встановлені програми"@
        } else {
            "Installed programs"@
        },
        Msg::AboutTab => if lang == Lang::Uk {
            "Про програму в новій вкладці"@
        } else {
            "About in a new tab"@
        },
        Msg::Close => if lang == Lang::Uk {
            "Закрити"@
        } else {
            "Close"@
        },
        Msg::Gone => if lang == Lang::Uk {
            "Цієї програми вже немає в останньому скануванні."@
        } else {
            "This program is no longer in the latest scan."@
        },
        Msg::NothingToOpen => if lang == Lang::Uk {
            "Для цієї програми на диску нічого відкрити."@
        } else {
            "There is nothing on disk to open for this program."@
        },
        Msg::NothingToCopy => if lang == Lang::Uk {
            "Ця програма не має шляху, який можна скопіювати."@
        } else {
            "This program has no path to copy."@
        },
        Msg::Copied => if lang == Lang::Uk {
            "Шлях скопійовано до буфера обміну."@
        } else {
            "Path copied to the clipboard."@
        },
        Msg::NoClipboard => if lang == Lang::Uk {
            "Не вдалося скопіювати шлях: не знайдено засобу для буфера обміну."@
        } else {
            "Couldn't copy the path: no clipboard tool was found."@
        },
        Msg::ScannedOpen => if lang == Lang::Uk {
            "Знайдено програм: "@
        } else {
            "Found "@
        },
        Msg::ScannedClose => if lang == Lang::Uk {
            "."@
        } else {
            " installed programs."@
        },
    }
}

/// A phrase in a language.
pub fn tr(lang: Lang, m: Msg) -> (r: &'static str)
    ensures
        r@ == msg(lang, m),
{
    let uk = match lang {
        Lang::Uk => true,
        Lang::En => false,
    };
    match m {
        Msg::Title => if uk {
            "Програми"
        } else {
            "Programs"
        },
        Msg::ScanHint => if uk {
            "Проскануйте цей комп’ютер, щоб знайти встановлені програми."
        } else {
            "Scan this machine for installed programs."
        },
        Msg::Scan => if uk {
            "Сканувати"
        } else {
            "Scan"
        },
        Msg::Refresh => if uk {
            "Оновити"
        } else {
            "Refresh"
        },
        Msg::MakeReport => if uk {
            "Створити звіт"
        } else {
            "Make Report"
        },
        Msg::Search => if uk {
            "Пошук"
        } else {
            "Search"
        },
        Msg::SearchPlaceholder => if uk {
            "назва, версія, видавець, джерело, розташування…"
        } else {
            "name, version, publisher, source, location…"
        },
        Msg::ActionsHint => if uk {
            "Клацніть рядок правою кнопкою, щоб побачити дії; двічі — щоб відкрити подробиці."
        } else {
            "Right-click a row for actions; double-click to open its details."
        },
        Msg::NoMatches => if uk {
            "немає збігів"
        } else {
            "no matches"
        },
        Msg::Showing => if uk {
            "показано "
        } else {
            "showing "
        },
        Msg::RangeDash => "–",
        Msg::Of => if uk {
            " з "
        } else {
            " of "
        },
        Msg::PageWord => if uk {
            " · сторінка "
        } else {
            " · page "
        },
        Msg::PageSlash => "/",
        Msg::HeadingOpen => if uk {
            "Встановлені програми ("
        } else {
            "Installed programs ("
        },
        Msg::HeadingClose => ") — ",
        Msg::ColName => if uk {
            "Назва"
        } else {
            "Name"
        },
        Msg::ColVersion => if uk {
            "Версія"
        } else {
            "Version"
        },
        Msg::ColPublisher => if uk {
            "Видавець"
        } else {
            "Publisher"
        },
        Msg::ColSource => if uk {
            "Джерело"
        } else {
            "Source"
        },
        Msg::ColScope => if uk {
            "Область"
        } else {
            "Scope"
        },
        Msg::ColLocation => if uk {
            "Розташування"
        } else {
            "Location"
        },
        Msg::About => if uk {
            "Про програму"
        } else {
            "About"
        },
        Msg::OpenLocation => if uk {
            "Відкрити розташування"
        } else {
            "Open location"
        },
        Msg::OpenFile => if uk {
            "Відкрити файл"
        } else {
            "Open file"
        },
        Msg::Reveal => if uk {
            "Показати у файловому менеджері"
        } else {
            "Show in Explorer"
        },
        Msg::CopyPath => if uk {
            "Копіювати шлях"
        } else {
            "Copy path"
        },
        Msg::Prev => if uk {
            "‹ Назад"
        } else {
            "‹ Prev"
        },
        Msg::Next => if uk {
            "Далі ›"
        } else {
            "Next ›"
        },
        Msg::Gap => "…",
        Msg::EmptyValue => "—",
        Msg::StaleTitle => if uk {
            "Програма"
        } else {
            "Program"
        },
        Msg::StaleText => if uk {
            "Цього запису немає в останньому скануванні — проскануйте ще раз і спробуйте знову."
        } else {
            "This entry isn't in the latest scan — re-scan and try again."
        },
        Msg::ReportOptions => if uk {
            "Параметри звіту"
        } else {
            "Report options"
        },
        Msg::Output => if uk {
            "Формат"
        } else {
            "Output"
        },
        Msg::Include => if uk {
            "Включити"
        } else {
            "Include"
        },
        Msg::Show => if uk {
            "Показати"
        } else {
            "Show"
        },
        Msg::Generate => if uk {
            "Створити"
        } else {
            "Generate"
        },
        Msg::FormatView => if uk {
            "Перегляд у застосунку"
        } else {
            "In-app view"
        },
        Msg::FormatMarkdown => "Markdown",
        Msg::FormatHtml => "HTML",
        Msg::FormatCsv => "CSV",
        Msg::ContentAll => if uk {
            "Таблиці та діаграми"
        } else {
            "Tables and charts"
        },
        Msg::ContentTables => if uk {
            "Лише таблиці"
        } else {
            "Tables only"
        },
        Msg::ContentCharts => if uk {
            "Лише діаграми"
        } else {
            "Charts only"
        },
        Msg::ScopeAll => if uk {
            "Усі програми"
        } else {
            "All programs"
        },
        Msg::ScopeSystem => if uk {
            "Лише системні"
        } else {
            "System only"
        },
        Msg::ScopeUser => if uk {
            "Лише користувацькі"
        } else {
            "User only"
        },
        Msg::Report => if uk {
            "Звіт"
        } else {
            "Report"
        },
        Msg::ReportExported => if uk {
            "Звіт експортовано"
        } else {
            "Report exported"
        },
        Msg::ReportExportedText => if uk {
            "Документ створено й відкрито в програмі за замовчуванням."
        } else {
            "The document was generated and opened in your default app."
        },
        Msg::ReportFailed => if uk {
            "Не вдалося створити звіт"
        } else {
            "Couldn't build the report"
        },
        Msg::DocTitle => if uk {
            "Звіт про встановлені програми"
        } else {
            "Installed Programs Report"
        },
        Msg::DocPrograms => if uk {
            " програм · "
        } else {
            " programs · "
        },
        Msg::DocSystem => if uk {
            " системних · "
        } else {
            " system · "
        },
        Msg::DocUser => if uk {
            " користувацьких"
        } else {
            " user"
        },
        Msg::DocTotal => if uk {
            "Усього програм: "
        } else {
            "Total programs: "
        },
        Msg::DocSystemWide => if uk {
            "Загальносистемних: "
        } else {
            "System-wide: "
        },
        Msg::DocUserLine => if uk {
            "Користувацьких: "
        } else {
            "User: "
        },
        Msg::ChartTitle => if uk {
            "Програми за джерелом"
        } else {
            "Programs by source"
        },
        Msg::SectionHeading => if uk {
            "Встановлені програми"
        } else {
            "Installed programs"
        },
        Msg::AboutTab => if uk {
            "Про програму в новій вкладці"
        } else {
            "About in a new tab"
        },
        Msg::Close => if uk {
            "Закрити"
        } else {
            "Close"
        },
        Msg::Gone => if uk {
            "Цієї програми вже немає в останньому скануванні."
        } else {
            "This program is no longer in the latest scan."
        },
        Msg::NothingToOpen => if uk {
            "Для цієї програми на диску нічого відкрити."
        } else {
            "There is nothing on disk to open for this program."
        },
        Msg::NothingToCopy => if uk {
            "Ця програма не має шляху, який можна скопіювати."
        } else {
            "This program has no path to copy."
        },
        Msg::Copied => if uk {
            "Шлях скопійовано до буфера обміну."
        } else {
            "Path copied to the clipboard."
        },
        Msg::NoClipboard => if uk {
            "Не вдалося скопіювати шлях: не знайдено засобу для буфера обміну."
        } else {
            "Couldn't copy the path: no clipboard tool was found."
        },
        Msg::ScannedOpen => if uk {
            "Знайдено програм: "
        } else {
            "Found "
        },
        Msg::ScannedClose => if uk {
            "."
        } else {
            " installed programs."
        },
    }
}

/// A phrase in a language, as an owned string.
pub fn text(lang: Lang, m: Msg) -> (r: String)
    ensures
        r@ == msg(lang, m),
{
    owned(tr(lang, m))
}

/// Which rows a report covers.
#[derive(Clone, Copy, Debug, PartialEq, Eq)]
pub enum Scope {
    All,
    System,
    User,
}

/// What a report holds.
#[derive(Clone, Copy, Debug, PartialEq, Eq)]
pub enum Content {
    All,
    Tables,
    Charts,
}

/// A list of choices a form offers: each with a label (a phrase) and a value.
pub trait ChoiceSet {
    type Value;

    /// How many choices there are.
    spec fn size(&self) -> nat;

    /// The phrase labelling choice `i`.
    spec fn label_of(&self, i: int) -> Msg;

    /// What choice `i` means.
    spec fn value_of(&self, i: int) -> Self::Value;

    fn count(&self) -> (r: usize)
        ensures
            r == self.size(),
            r >= 1,
    ;

    fn label(&self, i: usize) -> (r: Msg)
        requires
            i < self.size(),
        ensures
            r == self.label_of(i as int),
    ;

    fn value(&self, i: usize) -> (r: Self::Value)
        requires
            i < self.size(),
        ensures
            r == self.value_of(i as int),
    ;
}

/// The report formats: shown as `In-app view`, `Markdown`, `HTML`, `CSV`;
/// meaning `view`, `markdown`, `html`, `csv` to a report provider.
pub struct Formats;

/// The report contents: tables and charts, tables only, charts only.
pub struct Contents;

/// The report scopes: all programs, system only, user only.
pub struct Scopes;

pub const FORMATS: Formats = Formats;

pub const CONTENT: Contents = Contents;

pub const SCOPES: Scopes = Scopes;

impl ChoiceSet for Formats {
    type Value = &'static str;

    open spec fn size(&self) -> nat {
        4
    }

    open spec fn label_of(&self, i: int) -> Msg {
        if i == 0 {
            Msg::FormatView
        } else if i == 1 {
            Msg::FormatMarkdown
        } else if i == 2 {
            Msg::FormatHtml
        } else {
            Msg::FormatCsv
        }
    }

    open spec fn value_of(&self, i: int) -> &'static str {
        if i == 0 {
            "view"
        } else if i == 1 {
            "markdown"
        } else if i == 2 {
            "html"
        } else {
            "csv"
        }
    }

    fn count(&self) -> (r: usize) {
        4
    }

    fn label(&self, i: usize) -> (r: Msg) {
        if i == 0 {
            Msg::FormatView
        } else if i == 1 {
            Msg::FormatMarkdown
        } else if i == 2 {
            Msg::FormatHtml
        } else {
            Msg::FormatCsv
        }
    }

    fn value(&self, i: usize) -> (r: &'static str) {
        if i == 0 {
            "view"
        } else if i == 1 {
            "markdown"
        } else if i == 2 {
            "html"
        } else {
            "csv"
        }
    }
}

impl ChoiceSet for Contents {
    type Value = Content;

    open spec fn size(&self) -> nat {
        3
    }

    open spec fn label_of(&self, i: int) -> Msg {
        if i == 0 {
            Msg::ContentAll
        } else if i == 1 {
            Msg::ContentTables
        } else {
            Msg::ContentCharts
        }
    }

    open spec fn value_of(&self, i: int) -> Content {
        if i == 0 {
            Content::All
        } else if i == 1 {
            Content::Tables
        } else {
            Content::Charts
        }
    }

    fn count(&self) -> (r: usize) {
        3
    }

    fn label(&self, i: usize) -> (r: Msg) {
        if i == 0 {
            Msg::ContentAll
        } else if i == 1 {
            Msg::ContentTables
        } else {
            Msg::ContentCharts
        }
    }

    fn value(&self, i: usize) -> (r: Content) {
        if i == 0 {
            Content::All
        } else if i == 1 {
            Content::Tables
        } else {
            Content::Charts
        }
    }
}

impl ChoiceSet for Scopes {
    type Value = Scope;

    open spec fn size(&self) -> nat {
        3
    }

    open spec fn label_of(&self, i: int) -> Msg {
        if i == 0 {
            Msg::ScopeAll
        } else if i == 1 {
            Msg::ScopeSystem
        } else {
            Msg::ScopeUser
        }
    }

    open spec fn value_of(&self, i: int) -> Scope {
        if i == 0 {
            Scope::All
        } else if i == 1 {
            Scope::System
        } else {
            Scope::User
        }
    }

    fn count(&self) -> (r: usize) {
        3
    }

    fn label(&self, i: usize) -> (r: Msg) {
        if i == 0 {
            Msg::ScopeAll
        } else if i == 1 {
            Msg::ScopeSystem
        } else {
            Msg::ScopeUser
        }
    }

    fn value(&self, i: usize) -> (r: Scope) {
        if i == 0 {
            Scope::All
        } else if i == 1 {
            Scope::System
        } else {
            Scope::User
        }
    }
}

/// The labels of a set of choices, in a language.
pub open spec fn option_labels<S: ChoiceSet>(lang: Lang, set: S) -> Seq<Seq<char>> {
    Seq::new(set.size(), |i: int| msg(lang, set.label_of(i)))
}

/// The labels a form shows for a set of choices, in the language of `lang`.
pub fn options<S: ChoiceSet>(lang: &str, set: &S) -> (r: Vec<String>)
    ensures
        string_views(r@) == option_labels(lang_of(lang@), *set),
{
    let l = parse_lang(lang);
    let n = set.count();
    let mut r: Vec<String> = Vec::new();
    let mut i: usize = 0;
    while i < n
        invariant
            n == set.size(),
            l == lang_of(lang@),
            i <= n,
            string_views(r@) == option_labels(l, *set).take(i as int),
        decreases n - i,
    {
        let m = set.label(i);
        let t = text(l, m);
        proof {
            lemma_string_views_push(r@, t);
            assert(option_labels(l, *set).take(i + 1) =~= option_labels(l, *set).take(i as int).push(
                msg(l, set.label_of(i as int)),
            ));
        }
        r.push(t);
        i += 1;
    }
    assert(option_labels(l, *set).take(n as int) =~= option_labels(l, *set));
    r
}

/// The index of the first choice whose label, in `lang`, is `sent`, looking
/// from index `i` on; none if no label matches.
pub open spec fn label_index<S: ChoiceSet>(lang: Lang, set: S, sent: Seq<char>, i: int) -> Option<int>
    decreases set.size() - i,
{
    if i < 0 || i >= set.size() {
        None
    } else if msg(lang, set.label_of(i)) == sent {
        Some(i)
    } else {
        label_index(lang, set, sent, i + 1)
    }
}

/// What a label sent back by the form means: the value of the first choice
/// that label names in the language the form was shown in, or the first
/// choice's value when it names none.
pub open spec fn chosen<S: ChoiceSet>(lang: Lang, set: S, sent: Seq<char>) -> S::Value {
    match label_index(lang, set, sent, 0) {
        Some(i) => set.value_of(i),
        None => set.value_of(0),
    }
}

/// What the label `sent` (as the form showed it in `lang`) means.
pub fn choice<S: ChoiceSet>(lang: &str, set: &S, sent: &str) -> (r: S::Value)
    ensures
        r == chosen(lang_of(lang@), *set, sent@),
{
    let l = parse_lang(lang);
    let n = set.count();
    let mut i: usize = 0;
    while i < n
        invariant
            n == set.size(),
            n >= 1,
            l == lang_of(lang@),
            i <= n,
            label_index(l, *set, sent@, 0) == label_index(l, *set, sent@, i as int),
        decreases n - i,
    {
        let m = set.label(i);
        if crate::text::eq_str(tr(l, m), sent) {
            return set.value(i);
        }
        i += 1;
    }
    set.value(0)
}

proof fn lemma_label_index_finds<S: ChoiceSet>(lang: Lang, set: S, i: int, j: int)
    requires
        0 <= j <= i < set.size(),
        forall|a: int, b: int|
            0 <= a < b < set.size() ==> msg(lang, set.label_of(a)) != msg(lang, set.label_of(b)),
    ensures
        label_index(lang, set, msg(lang, set.label_of(i)), j) == Some(i),
    decreases i - j,
{
    if j < i {
        lemma_label_index_finds(lang, set, i, j + 1);
    }
}

/// A label a form showed leads back to its own choice, when the labels of the
/// set differ in that language.
pub proof fn lemma_choice_roundtrip<S: ChoiceSet>(lang: Lang, set: S, i: int)
    requires
        0 <= i < set.size(),
        forall|a: int, b: int|
            0 <= a < b < set.size() ==> msg(lang, set.label_of(a)) != msg(lang, set.label_of(b)),
    ensures
        chosen(lang, set, option_labels(lang, set)[i]) == set.value_of(i),
{
    lemma_label_index_finds(lang, set, i, 0);
}

/// Each report format label, shown in either language, means its format.
pub proof fn lemma_format_choice_roundtrip(lang: Lang, i: int)
    requires
        0 <= i < 4,
    ensures
        chosen(lang, FORMATS, option_labels(lang, FORMATS)[i]) == FORMATS.value_of(i),
{
    reveal_strlit("In-app view");
    reveal_strlit("Перегляд у застосунку");
    reveal_strlit("Markdown");
    reveal_strlit("HTML");
    reveal_strlit("CSV");
    assert forall|a: int, b: int| 0 <= a < b < 4 implies msg(lang, FORMATS.label_of(a)) != msg(
        lang,
        FORMATS.label_of(b),
    ) by {
        assert(msg(lang, FORMATS.label_of(a))[0] != msg(lang, FORMATS.label_of(b))[0]);
    }
    lemma_choice_roundtrip(lang, FORMATS, i);
}

/// Each report content label, shown in either language, means its content.
pub proof fn lemma_content_choice_roundtrip(lang: Lang, i: int)
    requires
        0 <= i < 3,
    ensures
        chosen(lang, CONTENT, option_labels(lang, CONTENT)[i]) == CONTENT.value_of(i),
{
    reveal_strlit("Tables and charts");
    reveal_strlit("Tables only");
    reveal_strlit("Charts only");
    reveal_strlit("Таблиці та діаграми");
    reveal_strlit("Лише таблиці");
    reveal_strlit("Лише діаграми");
    assert forall|a: int, b: int| 0 <= a < b < 3 implies msg(lang, CONTENT.label_of(a)) != msg(
        lang,
        CONTENT.label_of(b),
    ) by {
        let x = msg(lang, CONTENT.label_of(a));
        let y = msg(lang, CONTENT.label_of(b));
        if x.len() == y.len() {
            assert(x[0] != y[0] || x[6] != y[6]);
        }
    }
    lemma_choice_roundtrip(lang, CONTENT, i);
}

/// Each report scope label, shown in either language, means its scope.
pub proof fn lemma_scope_choice_roundtrip(lang: Lang, i: int)
    requires
        0 <= i < 3,
    ensures
        chosen(lang, SCOPES, option_labels(lang, SCOPES)[i]) == SCOPES.value_of(i),
{
    reveal_strlit("All programs");
    reveal_strlit("System only");
    reveal_strlit("User only");
    reveal_strlit("Усі програми");
    reveal_strlit("Лише системні");
    reveal_strlit("Лише користувацькі");
    assert forall|a: int, b: int| 0 <= a < b < 3 implies msg(lang, SCOPES.label_of(a)) != msg(
        lang,
        SCOPES.label_of(b),
    ) by {
        let x = msg(lang, SCOPES.label_of(a));
        let y = msg(lang, SCOPES.label_of(b));
        if x.len() == y.len() {
            assert(x[0] != y[0] || x[5] != y[5]);
        }
    }
    lemma_choice_roundtrip(lang, SCOPES, i);
}


/// Each label of the report form, in either language, means what it says: the
/// format it names, tables and charts, tables only or charts only, all
/// programs, system-wide only or per-user only.
pub proof fn lemma_labels_mean_what_they_say(lang: Lang)
    ensures
        chosen(lang, FORMATS, msg(lang, Msg::FormatView))@ == "view"@,
        chosen(lang, FORMATS, msg(lang, Msg::FormatMarkdown))@ == "markdown"@,
        chosen(lang, FORMATS, msg(lang, Msg::FormatHtml))@ == "html"@,
        chosen(lang, FORMATS, msg(lang, Msg::FormatCsv))@ == "csv"@,
        chosen(lang, CONTENT, msg(lang, Msg::ContentAll)) == Content::All,
        chosen(lang, CONTENT, msg(lang, Msg::ContentTables)) == Content::Tables,
        chosen(lang, CONTENT, msg(lang, Msg::ContentCharts)) == Content::Charts,
        chosen(lang, SCOPES, msg(lang, Msg::ScopeAll)) == Scope::All,
        chosen(lang, SCOPES, msg(lang, Msg::ScopeSystem)) == Scope::System,
        chosen(lang, SCOPES, msg(lang, Msg::ScopeUser)) == Scope::User,
{
    lemma_format_choice_roundtrip(lang, 0);
    lemma_format_choice_roundtrip(lang, 1);
    lemma_format_choice_roundtrip(lang, 2);
    lemma_format_choice_roundtrip(lang, 3);
    lemma_content_choice_roundtrip(lang, 0);
    lemma_content_choice_roundtrip(lang, 1);
    lemma_content_choice_roundtrip(lang, 2);
    lemma_scope_choice_roundtrip(lang, 0);
    lemma_scope_choice_roundtrip(lang, 1);
    lemma_scope_choice_roundtrip(lang, 2);
    assert(option_labels(lang, FORMATS)[0] == msg(lang, Msg::FormatView));
    assert(option_labels(lang, FORMATS)[1] == msg(lang, Msg::FormatMarkdown));
    assert(option_labels(lang, FORMATS)[2] == msg(lang, Msg::FormatHtml));
    assert(option_labels(lang, FORMATS)[3] == msg(lang, Msg::FormatCsv));
    assert(option_labels(lang, CONTENT)[0] == msg(lang, Msg::ContentAll));
    assert(option_labels(lang, CONTENT)[1] == msg(lang, Msg::ContentTables));
    assert(option_labels(lang, CONTENT)[2] == msg(lang, Msg::ContentCharts));
    assert(option_labels(lang, SCOPES)[0] == msg(lang, Msg::ScopeAll));
    assert(option_labels(lang, SCOPES)[1] == msg(lang, Msg::ScopeSystem));
    assert(option_labels(lang, SCOPES)[2] == msg(lang, Msg::ScopeUser));
}


proof fn lemma_label_index_none<S: ChoiceSet>(lang: Lang, set: S, sent: Seq<char>, i: int)
    requires
        0 <= i,
        forall|k: int| 0 <= k < set.size() ==> msg(lang, #[trigger] set.label_of(k)) != sent,
    ensures
        label_index(lang, set, sent, i) is None,
    decreases set.size() - i,
{
    if i < set.size() {
        lemma_label_index_none(lang, set, sent, i + 1);
    }
}

/// A label the form never offered (in the language it was shown in) chooses
/// nothing of its own: it means the set's first choice, which is the in-app
/// view, tables and charts, and all programs.
pub proof fn lemma_unknown_label_means_the_first(lang: Lang, sent: Seq<char>)
    ensures
        (forall|k: int| 0 <= k < 4 ==> msg(lang, #[trigger] FORMATS.label_of(k)) != sent) ==> chosen(
            lang,
            FORMATS,
            sent,
        )@ == "view"@,
        (forall|k: int| 0 <= k < 3 ==> msg(lang, #[trigger] CONTENT.label_of(k)) != sent) ==> chosen(
            lang,
            CONTENT,
            sent,
        ) == Content::All,
        (forall|k: int| 0 <= k < 3 ==> msg(lang, #[trigger] SCOPES.label_of(k)) != sent) ==> chosen(
            lang,
            SCOPES,
            sent,
        ) == Scope::All,
{
    if forall|k: int| 0 <= k < 4 ==> msg(lang, #[trigger] FORMATS.label_of(k)) != sent {
        lemma_label_index_none(lang, FORMATS, sent, 0);
    }
    if forall|k: int| 0 <= k < 3 ==> msg(lang, #[trigger] CONTENT.label_of(k)) != sent {
        lemma_label_index_none(lang, CONTENT, sent, 0);
    }
    if forall|k: int| 0 <= k < 3 ==> msg(lang, #[trigger] SCOPES.label_of(k)) != sent {
        lemma_label_index_none(lang, SCOPES, sent, 0);
    }
}

} // verus!
