use vstd::prelude::*;
use vstd::string::StringExecFns;

use crate::config::{BrowserConfig, Config, ExtensionItem, PrivacyConfig, SearchConfig};
use crate::text::{decimal, decimal_injective, decimal_string, push_decimal, same_text, strip_prefix};

verus! {

/// Registry value types written under the policy key.
pub enum RegValue {
    Dword(u32),
    Sz(String),
}

/// A single registry entry to write.
pub struct PolicyEntry {
    /// Subkey path relative to the policy key; empty means the policy key itself.
    pub subkey: String,
    pub name: String,
    pub value: RegValue,
}

/// What a `RegValue` holds.
pub enum ValueModel {
    Dword(u32),
    Sz(Seq<char>),
}

/// What a `PolicyEntry` holds.
pub struct EntryModel {
    pub subkey: Seq<char>,
    pub name: Seq<char>,
    pub value: ValueModel,
}

impl View for RegValue {
    type V = ValueModel;

    open spec fn view(&self) -> ValueModel {
        match self {
            RegValue::Dword(v) => ValueModel::Dword(*v),
            RegValue::Sz(s) => ValueModel::Sz(s@),
        }
    }
}

impl View for PolicyEntry {
    type V = EntryModel;

    open spec fn view(&self) -> EntryModel {
        EntryModel { subkey: self.subkey@, name: self.name@, value: self.value@ }
    }
}

/// The models of a sequence of entries.
pub open spec fn entries_view(v: Seq<PolicyEntry>) -> Seq<EntryModel> {
    v.map_values(|e: PolicyEntry| e@)
}

pub const SEARCH_ENABLED: &'static str = "DefaultSearchProviderEnabled";
pub const SEARCH_NAME: &'static str = "DefaultSearchProviderName";
pub const SEARCH_URL: &'static str = "DefaultSearchProviderSearchURL";
pub const SUGGEST_URL: &'static str = "DefaultSearchProviderSuggestURL";
pub const RESTORE_ON_STARTUP: &'static str = "RestoreOnStartup";
pub const SHOW_HOME_BUTTON: &'static str = "ShowHomeButton";
pub const FAVORITES_BAR: &'static str = "FavoritesBarEnabled";
pub const HIDE_FIRST_RUN: &'static str = "HideFirstRunExperience";
pub const TRACKING_PREVENTION: &'static str = "TrackingPrevention";
pub const PASSWORD_MANAGER: &'static str = "PasswordManagerEnabled";
pub const AUTOFILL_CREDIT_CARD: &'static str = "AutofillCreditCardEnabled";
pub const AUTOFILL_ADDRESS: &'static str = "AutofillAddressEnabled";

/// The one list subkey this tool manages: the forced extension list.
pub const EXTENSION_LIST: &'static str = "ExtensionInstallForcelist";

pub const EDGE_UPDATE_URL: &'static str = "https://edge.microsoft.com/extensionwebstorebase/v1/crx";
pub const CHROME_UPDATE_URL: &'static str = "https://clients2.google.com/service/update2/crx";
pub const EDGE_PREFIX: &'static str = "edge:";
pub const CHROME_PREFIX: &'static str = "chrome:";

pub open spec fn dword_model(subkey: Seq<char>, name: Seq<char>, v: u32) -> EntryModel {
    EntryModel { subkey, name, value: ValueModel::Dword(v) }
}

pub open spec fn sz_model(subkey: Seq<char>, name: Seq<char>, v: Seq<char>) -> EntryModel {
    EntryModel { subkey, name, value: ValueModel::Sz(v) }
}

/// `"<id>;<update-url>"` for an extension spec `edge:<id>`, `chrome:<id>` or a bare `<id>`
/// (a bare id takes the Edge feed).
pub open spec fn resolve_spec(s: Seq<char>) -> Seq<char> {
    if EDGE_PREFIX@.is_prefix_of(s) {
        s.skip(EDGE_PREFIX@.len() as int) + ";"@ + EDGE_UPDATE_URL@
    } else if CHROME_PREFIX@.is_prefix_of(s) {
        s.skip(CHROME_PREFIX@.len() as int) + ";"@ + CHROME_UPDATE_URL@
    } else {
        s + ";"@ + EDGE_UPDATE_URL@
    }
}

/// The start-up mode code; unknown modes take the new-tab code.
pub open spec fn restore_code(mode: Seq<char>) -> u32 {
    if mode == "new_tab"@ {
        5
    } else if mode == "previous_session"@ {
        1
    } else if mode == "urls"@ {
        4
    } else {
        5
    }
}

/// The tracking-prevention code; unknown levels take the balanced code.
pub open spec fn tracking_code(level: Seq<char>) -> u32 {
    if level == "off"@ {
        0
    } else if level == "basic"@ {
        1
    } else if level == "balanced"@ {
        2
    } else if level == "strict"@ {
        3
    } else {
        2
    }
}

pub open spec fn flag_code(b: bool) -> u32 {
    if b {
        1
    } else {
        0
    }
}

/// One root-level text entry when the field is present, none otherwise.
pub open spec fn opt_text(name: Seq<char>, o: Option<String>) -> Seq<EntryModel> {
    match o {
        Some(v) => seq![sz_model(Seq::empty(), name, v@)],
        None => Seq::empty(),
    }
}

/// One root-level flag entry when the field is present, none otherwise.
pub open spec fn opt_flag(name: Seq<char>, o: Option<bool>) -> Seq<EntryModel> {
    match o {
        Some(b) => seq![dword_model(Seq::empty(), name, flag_code(b))],
        None => Seq::empty(),
    }
}

pub open spec fn search_model(s: SearchConfig) -> Seq<EntryModel> {
    seq![dword_model(Seq::empty(), SEARCH_ENABLED@, 1)] + opt_text(SEARCH_NAME@, s.provider)
        + opt_text(SEARCH_URL@, s.search_url) + opt_text(SUGGEST_URL@, s.suggest_url)
}

/// The plain-string specs of an extensions mapping, in order; other values are left out.
pub open spec fn valid_specs(items: Seq<ExtensionItem>) -> Seq<Seq<char>>
    decreases items.len(),
{
    if items.len() == 0 {
        Seq::empty()
    } else {
        let prev = valid_specs(items.drop_last());
        match items.last().spec {
            Some(s) => prev.push(s@),
            None => prev,
        }
    }
}

/// The extension-list entries: the `j`-th valid spec under the name `j + 1`.
pub open spec fn extension_model(items: Seq<ExtensionItem>) -> Seq<EntryModel> {
    let specs = valid_specs(items);
    Seq::new(
        specs.len(),
        |j: int| sz_model(EXTENSION_LIST@, decimal((j + 1) as nat), resolve_spec(specs[j])),
    )
}

pub open spec fn browser_model(b: BrowserConfig) -> Seq<EntryModel> {
    (match b.restore_on_startup {
        Some(m) => seq![dword_model(Seq::empty(), RESTORE_ON_STARTUP@, restore_code(m@))],
        None => Seq::empty(),
    }) + opt_flag(SHOW_HOME_BUTTON@, b.show_home_button) + opt_flag(
        FAVORITES_BAR@,
        b.favorites_bar,
    ) + opt_flag(HIDE_FIRST_RUN@, b.hide_first_run)
}

pub open spec fn privacy_model(p: PrivacyConfig) -> Seq<EntryModel> {
    (match p.tracking_prevention {
        Some(l) => seq![dword_model(Seq::empty(), TRACKING_PREVENTION@, tracking_code(l@))],
        None => Seq::empty(),
    }) + opt_flag(PASSWORD_MANAGER@, p.password_manager) + opt_flag(
        AUTOFILL_CREDIT_CARD@,
        p.autofill_credit_card,
    ) + opt_flag(AUTOFILL_ADDRESS@, p.autofill_address)
}

/// The entries that a configuration translates to, section by section:
/// search, extensions, browser, privacy.
pub open spec fn build_model(cfg: Config) -> Seq<EntryModel> {
    (match cfg.search {
        Some(s) => search_model(s),
        None => Seq::empty(),
    }) + (match cfg.extensions {
        Some(items) => extension_model(items@),
        None => Seq::empty(),
    }) + (match cfg.browser {
        Some(b) => browser_model(b),
        None => Seq::empty(),
    }) + (match cfg.privacy {
        Some(p) => privacy_model(p),
        None => Seq::empty(),
    })
}

/// The text an entry is shown as: `<path> = DWORD(<n>)` or `<path> = "<text>"`,
/// where the path is the name, preceded by the subkey and a backslash when there is one.
pub open spec fn render_model(e: EntryModel) -> Seq<char> {
    let path = if e.subkey.len() == 0 {
        e.name
    } else {
        e.subkey + "\\"@ + e.name
    };
    match e.value {
        ValueModel::Dword(v) => path + " = DWORD("@ + decimal(v as nat) + ")"@,
        ValueModel::Sz(s) => path + " = \""@ + s + "\""@,
    }
}

impl PolicyEntry {
    /// The entry as one line of text.
    pub fn render(&self) -> (r: String)
        ensures
            r@ == render_model(self@),
    {
        let mut out = String::new();
        if self.subkey.as_str().is_empty() {
            out.append(self.name.as_str());
        } else {
            out.append(self.subkey.as_str());
            out.append("\\");
            out.append(self.name.as_str());
        }
        match &self.value {
            RegValue::Dword(v) => {
                out.append(" = DWORD(");
                push_decimal(&mut out, *v as u64);
                out.append(")");
            },
            RegValue::Sz(s) => {
                out.append(" = \"");
                out.append(s.as_str());
                out.append("\"");
            },
        }
        proof {
            assert(out@ =~= render_model(self@));
        }
        out
    }
}

/// Resolves an extension spec to `"<id>;<update-url>"`.
pub fn resolve_extension(spec: &str) -> (r: String)
    ensures
        r@ == resolve_spec(spec@),
{
    let (id, url) = match strip_prefix(spec, EDGE_PREFIX) {
        Some(id) => (id, EDGE_UPDATE_URL),
        None => match strip_prefix(spec, CHROME_PREFIX) {
            Some(id) => (id, CHROME_UPDATE_URL),
            None => (spec, EDGE_UPDATE_URL),
        },
    };
    let mut out = id.to_owned();
    out.append(";");
    out.append(url);
    out
}

/// An integer entry.
pub fn dword(subkey: &str, name: &str, value: u32) -> (r: PolicyEntry)
    ensures
        r@ == dword_model(subkey@, name@, value),
{
    PolicyEntry { subkey: subkey.to_owned(), name: name.to_owned(), value: RegValue::Dword(value) }
}

/// A text entry.
pub fn sz(subkey: &str, name: &str, value: &str) -> (r: PolicyEntry)
    ensures
        r@ == sz_model(subkey@, name@, value@),
{
    PolicyEntry {
        subkey: subkey.to_owned(),
        name: name.to_owned(),
        value: RegValue::Sz(value.to_owned()),
    }
}

fn push_entry(out: &mut Vec<PolicyEntry>, e: PolicyEntry)
    ensures
        entries_view(final(out)@) == entries_view(old(out)@).push(e@),
{
    let ghost before = out@;
    out.push(e);
    proof {
        assert(entries_view(out@) =~= entries_view(before).push(e@));
    }
}

fn push_opt_text(out: &mut Vec<PolicyEntry>, name: &str, o: &Option<String>)
    ensures
        entries_view(final(out)@) == entries_view(old(out)@) + opt_text(name@, *o),
{
    let ghost before = entries_view(out@);
    match o {
        Some(v) => push_entry(out, sz("", name, v.as_str())),
        None => {},
    }
    proof {
        reveal_strlit("");
        assert(""@ =~= Seq::<char>::empty());
        assert(entries_view(out@) =~= before + opt_text(name@, *o));
    }
}

fn push_opt_flag(out: &mut Vec<PolicyEntry>, name: &str, o: Option<bool>)
    ensures
        entries_view(final(out)@) == entries_view(old(out)@) + opt_flag(name@, o),
{
    let ghost before = entries_view(out@);
    match o {
        Some(b) => {
            let code: u32 = if b {
                1
            } else {
                0
            };
            push_entry(out, dword("", name, code));
        },
        None => {},
    }
    proof {
        reveal_strlit("");
        assert(""@ =~= Seq::<char>::empty());
        assert(entries_view(out@) =~= before + opt_flag(name@, o));
    }
}

/// The start-up mode code of a configured mode.
pub fn restore_on_startup_code(mode: &String) -> (r: u32)
    ensures
        r == restore_code(mode@),
{
    if same_text(mode, "new_tab") {
        5
    } else if same_text(mode, "previous_session") {
        1
    } else if same_text(mode, "urls") {
        4
    } else {
        5
    }
}

/// The tracking-prevention code of a configured level.
pub fn tracking_prevention_code(level: &String) -> (r: u32)
    ensures
        r == tracking_code(level@),
{
    if same_text(level, "off") {
        0
    } else if same_text(level, "basic") {
        1
    } else if same_text(level, "balanced") {
        2
    } else if same_text(level, "strict") {
        3
    } else {
        2
    }
}

fn push_search(out: &mut Vec<PolicyEntry>, search: &SearchConfig)
    ensures
        entries_view(final(out)@) == entries_view(old(out)@) + search_model(*search),
{
    let ghost before = entries_view(out@);
    push_entry(out, dword("", SEARCH_ENABLED, 1));
    push_opt_text(out, SEARCH_NAME, &search.provider);
    push_opt_text(out, SEARCH_URL, &search.search_url);
    push_opt_text(out, SUGGEST_URL, &search.suggest_url);
    proof {
        reveal_strlit("");
        assert(""@ =~= Seq::<char>::empty());
        assert(entries_view(out@) =~= before + search_model(*search));
    }
}

fn push_extensions(out: &mut Vec<PolicyEntry>, items: &Vec<ExtensionItem>)
    ensures
        entries_view(final(out)@) == entries_view(old(out)@) + extension_model(items@),
{
    let ghost before = entries_view(out@);
    let mut count: usize = 0;
    let mut i: usize = 0;
    while i < items.len()
        invariant
            i <= items.len(),
            count == valid_specs(items@.take(i as int)).len(),
            count <= i,
            entries_view(out@) == before + extension_model(items@.take(i as int)),
        decreases items.len() - i,
    {
        let ghost prev = items@.take(i as int);
        proof {
            assert(items@.take(i + 1).drop_last() =~= prev);
        }
        match &items[i].spec {
            Some(s) => {
                let value = resolve_extension(s.as_str());
                let name = decimal_string((count + 1) as u64);
                push_entry(out, sz(EXTENSION_LIST, name.as_str(), value.as_str()));
                count = count + 1;
                proof {
                    assert(extension_model(items@.take(i + 1)) =~= extension_model(prev).push(
                        sz_model(EXTENSION_LIST@, decimal(count as nat), resolve_spec(s@)),
                    ));
                }
            },
            None => {
                proof {
                    assert(extension_model(items@.take(i + 1)) =~= extension_model(prev));
                }
            },
        }
        i = i + 1;
    }
    proof {
        assert(items@.take(i as int) =~= items@);
    }
}

fn push_browser(out: &mut Vec<PolicyEntry>, browser: &BrowserConfig)
    ensures
        entries_view(final(out)@) == entries_view(old(out)@) + browser_model(*browser),
{
    let ghost before = entries_view(out@);
    match &browser.restore_on_startup {
        Some(mode) => push_entry(out, dword("", RESTORE_ON_STARTUP, restore_on_startup_code(mode))),
        None => {},
    }
    push_opt_flag(out, SHOW_HOME_BUTTON, browser.show_home_button);
    push_opt_flag(out, FAVORITES_BAR, browser.favorites_bar);
    push_opt_flag(out, HIDE_FIRST_RUN, browser.hide_first_run);
    proof {
        reveal_strlit("");
        assert(""@ =~= Seq::<char>::empty());
        assert(entries_view(out@) =~= before + browser_model(*browser));
    }
}

fn push_privacy(out: &mut Vec<PolicyEntry>, privacy: &PrivacyConfig)
    ensures
        entries_view(final(out)@) == entries_view(old(out)@) + privacy_model(*privacy),
{
    let ghost before = entries_view(out@);
    match &privacy.tracking_prevention {
        Some(level) => push_entry(
            out,
            dword("", TRACKING_PREVENTION, tracking_prevention_code(level)),
        ),
        None => {},
    }
    push_opt_flag(out, PASSWORD_MANAGER, privacy.password_manager);
    push_opt_flag(out, AUTOFILL_CREDIT_CARD, privacy.autofill_credit_card);
    push_opt_flag(out, AUTOFILL_ADDRESS, privacy.autofill_address);
    proof {
        reveal_strlit("");
        assert(""@ =~= Seq::<char>::empty());
        assert(entries_view(out@) =~= before + privacy_model(*privacy));
    }
}

/// Translates a configuration into the ordered list of policy entries.
pub fn build_entries(cfg: &Config) -> (r: Vec<PolicyEntry>)
    ensures
        entries_view(r@) == build_model(*cfg),
{
    let mut entries: Vec<PolicyEntry> = Vec::new();
    proof {
        assert(entries_view(entries@) =~= Seq::<EntryModel>::empty());
    }
    match &cfg.search {
        Some(search) => push_search(&mut entries, search),
        None => {},
    }
    let ghost after_search = entries_view(entries@);
    match &cfg.extensions {
        Some(items) => push_extensions(&mut entries, items),
        None => {},
    }
    let ghost after_ext = entries_view(entries@);
    match &cfg.browser {
        Some(browser) => push_browser(&mut entries, browser),
        None => {},
    }
    let ghost after_browser = entries_view(entries@);
    match &cfg.privacy {
        Some(privacy) => push_privacy(&mut entries, privacy),
        None => {},
    }
    proof {
        assert(entries_view(entries@) =~= build_model(*cfg));
    }
    entries
}

/// How many of the search section's optional fields are present.
pub open spec fn search_fields_present(s: SearchConfig) -> nat {
    (if s.provider is Some {
        1nat
    } else {
        0nat
    }) + (if s.search_url is Some {
        1nat
    } else {
        0nat
    }) + (if s.suggest_url is Some {
        1nat
    } else {
        0nat
    })
}

/// With only a search section, the batch is the one integer entry that enables the search
/// policy (value 1), followed by exactly one root-level text entry per present search field.
pub proof fn search_only_entries(cfg: Config)
    requires
        cfg.search is Some,
        cfg.extensions is None,
        cfg.browser is None,
        cfg.privacy is None,
    ensures
        build_model(cfg).len() == 1 + search_fields_present(cfg.search->0),
        build_model(cfg)[0] == dword_model(Seq::empty(), SEARCH_ENABLED@, 1),
        forall|i: int|
            1 <= i < build_model(cfg).len() ==> (#[trigger] build_model(cfg)[i]).value is Sz
                && build_model(cfg)[i].subkey.len() == 0,
{
    let s = cfg.search->0;
    assert(build_model(cfg) =~= search_model(s));
}

/// How many items of the extensions mapping hold a plain string.
pub open spec fn string_items(items: Seq<ExtensionItem>) -> nat
    decreases items.len(),
{
    if items.len() == 0 {
        0
    } else {
        string_items(items.drop_last()) + if items.last().spec is Some {
            1nat
        } else {
            0nat
        }
    }
}

/// The extension-list entries are numbered `1..k` without gaps, for the `k` items that hold
/// a plain string, whatever other values stand between them in the mapping; no two share a name.
pub proof fn extensions_numbered_contiguously(items: Seq<ExtensionItem>)
    ensures
        extension_model(items).len() == string_items(items),
        forall|j: int|
            0 <= j < extension_model(items).len() ==> (#[trigger] extension_model(items)[j]).name
                == decimal((j + 1) as nat) && extension_model(items)[j].subkey == EXTENSION_LIST@,
        forall|i: int, j: int|
            0 <= i < j < extension_model(items).len() ==> (#[trigger] extension_model(items)[i]).name
                != (#[trigger] extension_model(items)[j]).name,
    decreases items.len(),
{
    if items.len() > 0 {
        extensions_numbered_contiguously(items.drop_last());
    }
    assert forall|i: int, j: int|
        0 <= i < j < extension_model(items).len() implies (#[trigger] extension_model(items)[i]).name
            != (#[trigger] extension_model(items)[j]).name by {
        decimal_injective((i + 1) as nat, (j + 1) as nat);
    }
}

/// Unknown start-up modes take code 5, and unknown tracking levels take code 2.
pub proof fn unknown_codes_fall_back(s: Seq<char>)
    ensures
        s != "new_tab"@ && s != "previous_session"@ && s != "urls"@ ==> restore_code(s) == 5,
        s != "off"@ && s != "basic"@ && s != "balanced"@ && s != "strict"@ ==> tracking_code(s)
            == 2,
{
}

/// No two entries of the batch share a subkey and a name.
pub open spec fn unique_keys(m: Seq<EntryModel>) -> bool {
    forall|i: int, j: int|
        0 <= i < j < m.len() ==> (#[trigger] m[i]).subkey != (#[trigger] m[j]).subkey || m[i].name
            != m[j].name
}

/// The place of a root-level name in the order the builder emits them.
pub open spec fn root_rank(n: Seq<char>) -> int {
    if n == SEARCH_ENABLED@ {
        0
    } else if n == SEARCH_NAME@ {
        1
    } else if n == SEARCH_URL@ {
        2
    } else if n == SUGGEST_URL@ {
        3
    } else if n == RESTORE_ON_STARTUP@ {
        4
    } else if n == SHOW_HOME_BUTTON@ {
        5
    } else if n == FAVORITES_BAR@ {
        6
    } else if n == HIDE_FIRST_RUN@ {
        7
    } else if n == TRACKING_PREVENTION@ {
        8
    } else if n == PASSWORD_MANAGER@ {
        9
    } else if n == AUTOFILL_CREDIT_CARD@ {
        10
    } else if n == AUTOFILL_ADDRESS@ {
        11
    } else {
        12
    }
}

/// Root-level entries whose names rank in `lo..hi`, in strictly increasing rank.
pub open spec fn ranked(m: Seq<EntryModel>, lo: int, hi: int) -> bool {
    &&& forall|i: int| 0 <= i < m.len() ==> (#[trigger] m[i]).subkey.len() == 0
    &&& forall|i: int| 0 <= i < m.len() ==> lo <= root_rank((#[trigger] m[i]).name) < hi
    &&& forall|i: int, j: int|
        0 <= i < j < m.len() ==> root_rank((#[trigger] m[i]).name) < root_rank(
            (#[trigger] m[j]).name,
        )
}

proof fn lemma_root_ranks()
    ensures
        root_rank(SEARCH_ENABLED@) == 0,
        root_rank(SEARCH_NAME@) == 1,
        root_rank(SEARCH_URL@) == 2,
        root_rank(SUGGEST_URL@) == 3,
        root_rank(RESTORE_ON_STARTUP@) == 4,
        root_rank(SHOW_HOME_BUTTON@) == 5,
        root_rank(FAVORITES_BAR@) == 6,
        root_rank(HIDE_FIRST_RUN@) == 7,
        root_rank(TRACKING_PREVENTION@) == 8,
        root_rank(PASSWORD_MANAGER@) == 9,
        root_rank(AUTOFILL_CREDIT_CARD@) == 10,
        root_rank(AUTOFILL_ADDRESS@) == 11,
        EXTENSION_LIST@.len() > 0,
{
    reveal_strlit("DefaultSearchProviderEnabled");
    reveal_strlit("DefaultSearchProviderName");
    reveal_strlit("DefaultSearchProviderSearchURL");
    reveal_strlit("DefaultSearchProviderSuggestURL");
    reveal_strlit("RestoreOnStartup");
    reveal_strlit("ShowHomeButton");
    reveal_strlit("FavoritesBarEnabled");
    reveal_strlit("HideFirstRunExperience");
    reveal_strlit("TrackingPrevention");
    reveal_strlit("PasswordManagerEnabled");
    reveal_strlit("AutofillCreditCardEnabled");
    reveal_strlit("AutofillAddressEnabled");
    reveal_strlit("ExtensionInstallForcelist");
    assert(SEARCH_ENABLED@.len() == 28);
    assert(SEARCH_NAME@.len() == 25);
    assert(SEARCH_URL@.len() == 30);
    assert(SUGGEST_URL@.len() == 31);
    assert(RESTORE_ON_STARTUP@.len() == 16);
    assert(SHOW_HOME_BUTTON@.len() == 14);
    assert(FAVORITES_BAR@.len() == 19);
    assert(HIDE_FIRST_RUN@.len() == 22);
    assert(TRACKING_PREVENTION@.len() == 18);
    assert(PASSWORD_MANAGER@.len() == 22);
    assert(AUTOFILL_CREDIT_CARD@.len() == 25);
    assert(AUTOFILL_ADDRESS@.len() == 22);
    assert(SEARCH_NAME@[21] != SEARCH_ENABLED@[21]);
    assert(SEARCH_URL@[21] != SEARCH_NAME@[21]);
    assert(SUGGEST_URL@[22] != SEARCH_URL@[22]);
    assert(AUTOFILL_CREDIT_CARD@[0] != SEARCH_NAME@[0]);
    assert(PASSWORD_MANAGER@[0] != HIDE_FIRST_RUN@[0]);
    assert(AUTOFILL_ADDRESS@[0] != HIDE_FIRST_RUN@[0]);
    assert(AUTOFILL_ADDRESS@[0] != PASSWORD_MANAGER@[0]);
}

proof fn lemma_ranked_concat(a: Seq<EntryModel>, b: Seq<EntryModel>, lo: int, mid: int, hi: int)
    requires
        lo <= mid <= hi,
        ranked(a, lo, mid),
        ranked(b, mid, hi),
    ensures
        ranked(a + b, lo, hi),
{
    let m = a + b;
    assert forall|i: int| 0 <= i < m.len() implies (#[trigger] m[i]).subkey.len() == 0 && (lo
        <= root_rank(m[i].name) && root_rank(m[i].name) < hi) by {
        if i >= a.len() {
            let k = i - a.len();
            assert(m[i] == b[k]);
            assert(b[k].subkey.len() == 0);
            assert(mid <= root_rank(b[k].name) < hi);
        } else {
            assert(m[i] == a[i]);
            assert(a[i].subkey.len() == 0);
            assert(lo <= root_rank(a[i].name) < mid);
        }
    }
    assert forall|i: int, j: int| 0 <= i < j < m.len() implies root_rank((#[trigger] m[i]).name)
        < root_rank((#[trigger] m[j]).name) by {
        if j < a.len() {
        } else if i < a.len() {
            assert(m[j] == b[j - a.len()]);
        } else {
            assert(m[i] == b[i - a.len()]);
            assert(m[j] == b[j - a.len()]);
        }
    }
}

proof fn lemma_ranked_empty(lo: int, hi: int)
    ensures
        ranked(Seq::empty(), lo, hi),
{
}

proof fn lemma_search_ranked(s: SearchConfig)
    ensures
        ranked(search_model(s), 0, 4),
{
    lemma_root_ranks();
    let a = seq![dword_model(Seq::empty(), SEARCH_ENABLED@, 1)];
    assert(ranked(a, 0, 1));
    assert(ranked(opt_text(SEARCH_NAME@, s.provider), 1, 2));
    assert(ranked(opt_text(SEARCH_URL@, s.search_url), 2, 3));
    assert(ranked(opt_text(SUGGEST_URL@, s.suggest_url), 3, 4));
    lemma_ranked_concat(a, opt_text(SEARCH_NAME@, s.provider), 0, 1, 2);
    lemma_ranked_concat(
        a + opt_text(SEARCH_NAME@, s.provider),
        opt_text(SEARCH_URL@, s.search_url),
        0,
        2,
        3,
    );
    lemma_ranked_concat(
        a + opt_text(SEARCH_NAME@, s.provider) + opt_text(SEARCH_URL@, s.search_url),
        opt_text(SUGGEST_URL@, s.suggest_url),
        0,
        3,
        4,
    );
}

proof fn lemma_browser_ranked(b: BrowserConfig)
    ensures
        ranked(browser_model(b), 4, 8),
{
    lemma_root_ranks();
    let a = match b.restore_on_startup {
        Some(m) => seq![dword_model(Seq::empty(), RESTORE_ON_STARTUP@, restore_code(m@))],
        None => Seq::empty(),
    };
    let x = opt_flag(SHOW_HOME_BUTTON@, b.show_home_button);
    let y = opt_flag(FAVORITES_BAR@, b.favorites_bar);
    let z = opt_flag(HIDE_FIRST_RUN@, b.hide_first_run);
    assert(ranked(a, 4, 5));
    assert(ranked(x, 5, 6));
    assert(ranked(y, 6, 7));
    assert(ranked(z, 7, 8));
    lemma_ranked_concat(a, x, 4, 5, 6);
    lemma_ranked_concat(a + x, y, 4, 6, 7);
    lemma_ranked_concat(a + x + y, z, 4, 7, 8);
}

proof fn lemma_privacy_ranked(p: PrivacyConfig)
    ensures
        ranked(privacy_model(p), 8, 12),
{
    lemma_root_ranks();
    let a = match p.tracking_prevention {
        Some(l) => seq![dword_model(Seq::empty(), TRACKING_PREVENTION@, tracking_code(l@))],
        None => Seq::empty(),
    };
    let x = opt_flag(PASSWORD_MANAGER@, p.password_manager);
    let y = opt_flag(AUTOFILL_CREDIT_CARD@, p.autofill_credit_card);
    let z = opt_flag(AUTOFILL_ADDRESS@, p.autofill_address);
    assert(ranked(a, 8, 9));
    assert(ranked(x, 9, 10));
    assert(ranked(y, 10, 11));
    assert(ranked(z, 11, 12));
    lemma_ranked_concat(a, x, 8, 9, 10);
    lemma_ranked_concat(a + x, y, 8, 10, 11);
    lemma_ranked_concat(a + x + y, z, 8, 11, 12);
}

/// Within one built batch, no two entries share a subkey and a name.
pub proof fn batch_keys_unique(cfg: Config)
    ensures
        unique_keys(build_model(cfg)),
{
    lemma_root_ranks();
    let s = match cfg.search {
        Some(s) => search_model(s),
        None => Seq::empty(),
    };
    let e = match cfg.extensions {
        Some(items) => extension_model(items@),
        None => Seq::empty(),
    };
    let b = match cfg.browser {
        Some(b) => browser_model(b),
        None => Seq::empty(),
    };
    let p = match cfg.privacy {
        Some(p) => privacy_model(p),
        None => Seq::empty(),
    };
    match cfg.search {
        Some(x) => lemma_search_ranked(x),
        None => lemma_ranked_empty(0, 4),
    }
    match cfg.browser {
        Some(x) => lemma_browser_ranked(x),
        None => lemma_ranked_empty(4, 8),
    }
    match cfg.privacy {
        Some(x) => lemma_privacy_ranked(x),
        None => lemma_ranked_empty(8, 12),
    }
    match cfg.extensions {
        Some(items) => extensions_numbered_contiguously(items@),
        None => {},
    }
    lemma_ranked_concat(b, p, 4, 8, 12);
    let r = b + p;
    let m = build_model(cfg);
    assert(m =~= s + e + r);
    assert forall|i: int, j: int| 0 <= i < j < m.len() implies (#[trigger] m[i]).subkey != (
    #[trigger] m[j]).subkey || m[i].name != m[j].name by {
        let n1 = s.len();
        let n2 = s.len() + e.len();
        if j < n1 {
        } else if j < n2 {
            assert(m[j] == e[j - n1]);
            if i >= n1 {
                assert(m[i] == e[i - n1]);
            }
        } else {
            assert(m[j] == r[j - n2]);
            if i >= n2 {
                assert(m[i] == r[i - n2]);
            } else if i >= n1 {
                assert(m[i] == e[i - n1]);
            }
        }
    }
}

} // verus!
