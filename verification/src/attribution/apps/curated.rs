//! Two small tables that no signal on disk replaces: where Apple's own apps keep their data, and
//! which owner a directory belongs to whose name does not tell.

use vstd::prelude::*;

use crate::attribution::model::AgentNames;
use crate::text::same;

verus! {

/// A place, below the home directory, where one of Apple's apps keeps its data.
#[derive(Clone, Copy, Debug)]
pub struct AppleDataLocation {
    pub bundle_id: &'static str,
    pub home_suffix: &'static str,
    pub label: &'static str,
}

impl DeepView for AppleDataLocation {
    type V = (Seq<char>, Seq<char>, Seq<char>);

    open spec fn deep_view(&self) -> (Seq<char>, Seq<char>, Seq<char>) {
        (self.bundle_id@, self.home_suffix@, self.label@)
    }
}

/// The places where Apple's apps keep their data: bundle id, place, label.
pub open spec fn apple_places() -> Seq<(Seq<char>, Seq<char>, Seq<char>)> {
    seq![
        ("com.apple.mail"@, "Library/Mail"@, "Mail"@),
        ("com.apple.MobileSMS"@, "Library/Messages"@, "Messages"@),
        ("com.apple.Music"@, "Music/Music"@, "Music"@),
        ("com.apple.TV"@, "Movies/TV"@, "TV"@),
        ("com.apple.finder"@, "Library/Mobile Documents"@, "iCloud Drive"@),
        ("com.apple.Safari"@, "Library/Safari"@, "Safari"@),
        ("com.apple.dt.Xcode"@, "Library/Developer"@, "Xcode developer data"@),
        ("com.apple.Podcasts"@, "Library/Group Containers/243LU875E5.groups.com.apple.podcasts"@, "Podcasts"@),
        ("com.apple.iBooksX"@, "Library/Containers/com.apple.BKAgentService"@, "Books"@),
        ("com.apple.Notes"@, "Library/Group Containers/group.com.apple.notes"@, "Notes"@),
    ]
}

/// The places where Apple's apps keep their data.
pub fn apple_data_locations() -> (r: Vec<AppleDataLocation>)
    ensures
        r.deep_view() == apple_places(),
{
    let r = vec![
        AppleDataLocation { bundle_id: "com.apple.mail", home_suffix: "Library/Mail", label: "Mail" },
        AppleDataLocation { bundle_id: "com.apple.MobileSMS", home_suffix: "Library/Messages", label: "Messages" },
        AppleDataLocation { bundle_id: "com.apple.Music", home_suffix: "Music/Music", label: "Music" },
        AppleDataLocation { bundle_id: "com.apple.TV", home_suffix: "Movies/TV", label: "TV" },
        AppleDataLocation { bundle_id: "com.apple.finder", home_suffix: "Library/Mobile Documents", label: "iCloud Drive" },
        AppleDataLocation { bundle_id: "com.apple.Safari", home_suffix: "Library/Safari", label: "Safari" },
        AppleDataLocation { bundle_id: "com.apple.dt.Xcode", home_suffix: "Library/Developer", label: "Xcode developer data" },
        AppleDataLocation { bundle_id: "com.apple.Podcasts", home_suffix: "Library/Group Containers/243LU875E5.groups.com.apple.podcasts", label: "Podcasts" },
        AppleDataLocation { bundle_id: "com.apple.iBooksX", home_suffix: "Library/Containers/com.apple.BKAgentService", label: "Books" },
        AppleDataLocation { bundle_id: "com.apple.Notes", home_suffix: "Library/Group Containers/group.com.apple.notes", label: "Notes" },
    ];
    assert(r.deep_view() =~= apple_places());
    r
}

/// The app that photo libraries belong to.
pub const PHOTOS_BUNDLE_ID: &'static str = "com.apple.Photos";

/// The app of a cloud provider, by the front of its directories' names.
pub open spec fn provider_app(name: Seq<char>) -> Option<Seq<char>> {
    if name == "GoogleDrive"@ {
        Some("com.google.GoogleDrive"@)
    } else if name == "Dropbox"@ {
        Some("com.getdropbox.dropbox"@)
    } else if name == "OneDrive"@ {
        Some("com.microsoft.OneDrive"@)
    } else if name == "Box"@ {
        Some("com.box.desktop"@)
    } else {
        None
    }
}

/// The app of a cloud provider, by the front of its directories' names.
pub fn cloud_provider(name: &str) -> (r: Option<&'static str>)
    ensures
        crate::attribution::model::opt_static(r) == provider_app(name@),
{
    if same(name, "GoogleDrive") {
        Some("com.google.GoogleDrive")
    } else if same(name, "Dropbox") {
        Some("com.getdropbox.dropbox")
    } else if same(name, "OneDrive") {
        Some("com.microsoft.OneDrive")
    } else if same(name, "Box") {
        Some("com.box.desktop")
    } else {
        None
    }
}

/// Whom a row of the table names.
#[derive(Clone, Copy, Debug)]
pub enum CuratedTarget {
    /// The owner with this key, where there is one.
    Owner(&'static str),
    /// Every app whose bundle id begins like this.
    VendorPrefix(&'static str),
}

/// Whom a row of the table names, as a value.
pub enum TargetView {
    Owner(Seq<char>),
    VendorPrefix(Seq<char>),
}

impl DeepView for CuratedTarget {
    type V = TargetView;

    open spec fn deep_view(&self) -> TargetView {
        match self {
            CuratedTarget::Owner(k) => TargetView::Owner(k@),
            CuratedTarget::VendorPrefix(p) => TargetView::VendorPrefix(p@),
        }
    }
}

/// A row of the table: a directory's name, in any case, and whose it is.
#[derive(Clone, Copy, Debug)]
pub struct CuratedRow {
    pub name: &'static str,
    pub target: CuratedTarget,
    /// Why nothing on disk tells.
    pub reason: &'static str,
}

/// A row of the table, as a value.
#[verifier::ext_equal]
pub struct CuratedView {
    pub name: Seq<char>,
    pub target: TargetView,
    pub reason: Seq<char>,
}

impl DeepView for CuratedRow {
    type V = CuratedView;

    open spec fn deep_view(&self) -> CuratedView {
        CuratedView {
            name: self.name@,
            target: self.target.deep_view(),
            reason: self.reason@,
        }
    }
}

/// The rows that are the same everywhere.
pub open spec fn known_rows() -> Seq<CuratedView> {
    seq![
        CuratedView {
            name: "Docker Desktop"@,
            target: TargetView::Owner("com.docker.docker"@),
            reason: "Docker Desktop's data dir is named after the product, not its bundle id"@,
        },
        CuratedView {
            name: "Ableton"@,
            target: TargetView::Owner("com.ableton.live"@),
            reason: "Ableton Live's Application Support dir is the vendor name, not the app's bundle id"@,
        },
        CuratedView {
            name: "Adobe"@,
            target: TargetView::VendorPrefix("com.adobe."@),
            reason: "one Application Support/Caches dir is shared by every installed Adobe app"@,
        },
        CuratedView {
            name: "BraveSoftware"@,
            target: TargetView::Owner("com.brave.Browser"@),
            reason: "Brave's data dir uses the company name, not the app's bundle id"@,
        },
        CuratedView {
            name: "Microsoft"@,
            target: TargetView::VendorPrefix("com.microsoft."@),
            reason: "a bare Microsoft vendor dir is shared by every installed Microsoft app"@,
        },
        CuratedView {
            name: "Google"@,
            target: TargetView::VendorPrefix("com.google."@),
            reason: "a bare Google vendor dir with no matching child is shared by every installed Google app"@,
        },
        CuratedView {
            name: "Mozilla"@,
            target: TargetView::Owner("org.mozilla.firefox"@),
            reason: "Firefox's profile dir is named after the vendor, not the app's bundle id"@,
        },
        CuratedView {
            name: "Firefox"@,
            target: TargetView::Owner("org.mozilla.firefox"@),
            reason: "an alternate spelling of Firefox's data dir name"@,
        },
        CuratedView {
            name: "TorBrowser-Data"@,
            target: TargetView::Owner("org.torproject.torbrowser"@),
            reason: "Tor Browser's data dir is a fixed name unrelated to its bundle id"@,
        },
        CuratedView {
            name: "Codex"@,
            target: TargetView::Owner("tool:codex"@),
            reason: "the Codex CLI's cache dir predates any app-style identity to match on"@,
        },
        CuratedView {
            name: "Homebrew"@,
            target: TargetView::Owner("homebrew"@),
            reason: "Homebrew's own Caches/Logs dirs are named after the project, not a formula"@,
        },
        CuratedView {
            name: "pnpm"@,
            target: TargetView::Owner("tool:pnpm"@),
            reason: "the global pnpm store/cache dir isn't scoped to any single formula"@,
        },
        CuratedView {
            name: "uv"@,
            target: TargetView::Owner("tool:uv"@),
            reason: "uv's cache dir name doesn't vary with its formula/tool identity"@,
        },
        CuratedView {
            name: "go-build"@,
            target: TargetView::Owner("tool:go"@),
            reason: "Go's build cache is named by the toolchain, not a formula id"@,
        },
        CuratedView {
            name: "ms-playwright"@,
            target: TargetView::Owner("tool:playwright"@),
            reason: "Playwright's browser-download cache predates any bundle/formula naming"@,
        },
        CuratedView {
            name: "pip"@,
            target: TargetView::Owner("tool:pip"@),
            reason: "pip's cache dir name doesn't vary by installed formula"@,
        },
        CuratedView {
            name: "pipx"@,
            target: TargetView::Owner("tool:pipx"@),
            reason: "pipx's shared venvs dir isn't scoped to any single tool identity"@,
        },
        CuratedView {
            name: "virtualenv"@,
            target: TargetView::Owner("tool:pip"@),
            reason: "virtualenv's cache is conventionally grouped with pip's"@,
        },
        CuratedView {
            name: ".cargo"@,
            target: TargetView::Owner("formula:rustup"@),
            reason: "rustup provides cargo; no formula or tool is named `cargo` to name-match against"@,
        },
        CuratedView {
            name: "org.swift.swiftpm"@,
            target: TargetView::Owner("com.apple.dt.Xcode"@),
            reason: "SwiftPM's cache is keyed by its own bundle id, not Xcode's"@,
        },
        CuratedView {
            name: "CocoaPods"@,
            target: TargetView::Owner("com.apple.dt.Xcode"@),
            reason: "CocoaPods is a gem, never an app/formula/tool owner; its cache exists for Xcode projects"@,
        },
    ]
}

/// The row for the cache of the coding agent's command line.
pub open spec fn agent_row(a: AgentNames) -> CuratedView {
    CuratedView {
        name: a.cli_cache@,
        target: TargetView::Owner(a.tool_owner@),
        reason: a.tool_reason@,
    }
}

/// The table.
pub open spec fn curated_table(a: AgentNames) -> Seq<CuratedView> {
    known_rows().push(agent_row(a))
}

/// The table.
pub fn curated_rows(a: AgentNames) -> (r: Vec<CuratedRow>)
    ensures
        r.deep_view() == curated_table(a),
{
    let mut r = vec![
        CuratedRow {
            name: "Docker Desktop",
            target: CuratedTarget::Owner("com.docker.docker"),
            reason: "Docker Desktop's data dir is named after the product, not its bundle id",
        },
        CuratedRow {
            name: "Ableton",
            target: CuratedTarget::Owner("com.ableton.live"),
            reason: "Ableton Live's Application Support dir is the vendor name, not the app's bundle id",
        },
        CuratedRow {
            name: "Adobe",
            target: CuratedTarget::VendorPrefix("com.adobe."),
            reason: "one Application Support/Caches dir is shared by every installed Adobe app",
        },
        CuratedRow {
            name: "BraveSoftware",
            target: CuratedTarget::Owner("com.brave.Browser"),
            reason: "Brave's data dir uses the company name, not the app's bundle id",
        },
        CuratedRow {
            name: "Microsoft",
            target: CuratedTarget::VendorPrefix("com.microsoft."),
            reason: "a bare Microsoft vendor dir is shared by every installed Microsoft app",
        },
        CuratedRow {
            name: "Google",
            target: CuratedTarget::VendorPrefix("com.google."),
            reason: "a bare Google vendor dir with no matching child is shared by every installed Google app",
        },
        CuratedRow {
            name: "Mozilla",
            target: CuratedTarget::Owner("org.mozilla.firefox"),
            reason: "Firefox's profile dir is named after the vendor, not the app's bundle id",
        },
        CuratedRow {
            name: "Firefox",
            target: CuratedTarget::Owner("org.mozilla.firefox"),
            reason: "an alternate spelling of Firefox's data dir name",
        },
        CuratedRow {
            name: "TorBrowser-Data",
            target: CuratedTarget::Owner("org.torproject.torbrowser"),
            reason: "Tor Browser's data dir is a fixed name unrelated to its bundle id",
        },
        CuratedRow {
            name: "Codex",
            target: CuratedTarget::Owner("tool:codex"),
            reason: "the Codex CLI's cache dir predates any app-style identity to match on",
        },
        CuratedRow {
            name: "Homebrew",
            target: CuratedTarget::Owner("homebrew"),
            reason: "Homebrew's own Caches/Logs dirs are named after the project, not a formula",
        },
        CuratedRow {
            name: "pnpm",
            target: CuratedTarget::Owner("tool:pnpm"),
            reason: "the global pnpm store/cache dir isn't scoped to any single formula",
        },
        CuratedRow {
            name: "uv",
            target: CuratedTarget::Owner("tool:uv"),
            reason: "uv's cache dir name doesn't vary with its formula/tool identity",
        },
        CuratedRow {
            name: "go-build",
            target: CuratedTarget::Owner("tool:go"),
            reason: "Go's build cache is named by the toolchain, not a formula id",
        },
        CuratedRow {
            name: "ms-playwright",
            target: CuratedTarget::Owner("tool:playwright"),
            reason: "Playwright's browser-download cache predates any bundle/formula naming",
        },
        CuratedRow {
            name: "pip",
            target: CuratedTarget::Owner("tool:pip"),
            reason: "pip's cache dir name doesn't vary by installed formula",
        },
        CuratedRow {
            name: "pipx",
            target: CuratedTarget::Owner("tool:pipx"),
            reason: "pipx's shared venvs dir isn't scoped to any single tool identity",
        },
        CuratedRow {
            name: "virtualenv",
            target: CuratedTarget::Owner("tool:pip"),
            reason: "virtualenv's cache is conventionally grouped with pip's",
        },
        CuratedRow {
            name: ".cargo",
            target: CuratedTarget::Owner("formula:rustup"),
            reason: "rustup provides cargo; no formula or tool is named `cargo` to name-match against",
        },
        CuratedRow {
            name: "org.swift.swiftpm",
            target: CuratedTarget::Owner("com.apple.dt.Xcode"),
            reason: "SwiftPM's cache is keyed by its own bundle id, not Xcode's",
        },
        CuratedRow {
            name: "CocoaPods",
            target: CuratedTarget::Owner("com.apple.dt.Xcode"),
            reason: "CocoaPods is a gem, never an app/formula/tool owner; its cache exists for Xcode projects",
        },
    ];
    assert(r.deep_view() =~= known_rows());
    let ghost was = r.deep_view();
    let row = CuratedRow {
        name: a.cli_cache,
        target: CuratedTarget::Owner(a.tool_owner),
        reason: a.tool_reason,
    };
    r.push(row);
    assert(r.deep_view() =~= was.push(row.deep_view()));
    r
}

/// The names of those of Apple's apps that may not be found as bundles.
pub open spec fn apple_name(bundle_id: Seq<char>) -> Option<Seq<char>> {
    if bundle_id == "com.apple.mail"@ {
        Some("Mail"@)
    } else if bundle_id == "com.apple.MobileSMS"@ {
        Some("Messages"@)
    } else if bundle_id == "com.apple.Music"@ {
        Some("Music"@)
    } else if bundle_id == "com.apple.TV"@ {
        Some("TV"@)
    } else if bundle_id == "com.apple.finder"@ {
        Some("Finder (iCloud Drive)"@)
    } else if bundle_id == "com.apple.Safari"@ {
        Some("Safari"@)
    } else if bundle_id == "com.apple.dt.Xcode"@ {
        Some("Xcode"@)
    } else if bundle_id == "com.apple.Podcasts"@ {
        Some("Podcasts"@)
    } else if bundle_id == "com.apple.iBooksX"@ {
        Some("Books"@)
    } else if bundle_id == "com.apple.Notes"@ {
        Some("Notes"@)
    } else if bundle_id == "com.apple.Photos"@ {
        Some("Photos"@)
    } else {
        None
    }
}

/// The name of one of Apple's apps, by its bundle id.
pub fn apple_owner_name(bundle_id: &str) -> (r: Option<&'static str>)
    ensures
        crate::attribution::model::opt_static(r) == apple_name(bundle_id@),
{
    if same(bundle_id, "com.apple.mail") {
        Some("Mail")
    } else if same(bundle_id, "com.apple.MobileSMS") {
        Some("Messages")
    } else if same(bundle_id, "com.apple.Music") {
        Some("Music")
    } else if same(bundle_id, "com.apple.TV") {
        Some("TV")
    } else if same(bundle_id, "com.apple.finder") {
        Some("Finder (iCloud Drive)")
    } else if same(bundle_id, "com.apple.Safari") {
        Some("Safari")
    } else if same(bundle_id, "com.apple.dt.Xcode") {
        Some("Xcode")
    } else if same(bundle_id, "com.apple.Podcasts") {
        Some("Podcasts")
    } else if same(bundle_id, "com.apple.iBooksX") {
        Some("Books")
    } else if same(bundle_id, "com.apple.Notes") {
        Some("Notes")
    } else if same(bundle_id, "com.apple.Photos") {
        Some("Photos")
    } else {
        None
    }
}

} // verus!
