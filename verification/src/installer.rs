//! The setup wizard: its steps, what each button does, and the text it
//! writes into the system (the user `PATH`, shortcut scripts, the context
//! menu command).
use vstd::prelude::*;
use vstd::string::*;

use crate::session::{has_no_separator, is_plain_component};
use crate::text::{contains_str, contains_text, is_blank, trim_ws};

verus! {

/// The pages of the wizard.
#[derive(Clone, Copy, PartialEq, Eq, Structural, Debug)]
pub enum InstallerStep {
    Welcome,
    UserDetails,
    InstallPath,
    Installing,
    Finished,
}

/// What the user or the installation did during one frame.
pub enum InstallerEvent {
    /// "Get Started" on the welcome page.
    GetStarted,
    /// "Back" on the user or path page.
    Back,
    /// "Next" on the user page.
    Next,
    /// "Install Now" on the path page.
    InstallNow,
    /// A folder was picked for the installation.
    PathPicked(String),
    /// The installation ran, with this outcome.
    Installed(Result<(), String>),
}

/// The wizard's state as mathematical values.
pub struct InstallerView {
    pub step: InstallerStep,
    pub username: Seq<char>,
    pub install_path: Seq<char>,
    pub status_message: Seq<char>,
    pub installation_complete: bool,
}

/// The wizard's state (the progress bar is kept by the window).
pub struct Installer {
    pub step: InstallerStep,
    pub username: String,
    pub install_path: String,
    pub status_message: String,
    pub installation_complete: bool,
}

impl View for Installer {
    type V = InstallerView;

    open spec fn view(&self) -> InstallerView {
        InstallerView {
            step: self.step,
            username: self.username@,
            install_path: self.install_path@,
            status_message: self.status_message@,
            installation_complete: self.installation_complete,
        }
    }
}

/// Moving to page `next`: the status message is cleared.
pub open spec fn moved_to(v: InstallerView, next: InstallerStep) -> InstallerView {
    InstallerView { step: next, status_message: Seq::empty(), ..v }
}

/// The effect of an event. A button only acts on the page that shows it;
/// "Next" needs a non-blank user name; a failed installation shows its error
/// and stays on the page.
pub open spec fn installer_step(v: InstallerView, e: InstallerEvent) -> InstallerView {
    match e {
        InstallerEvent::GetStarted => if v.step == InstallerStep::Welcome {
            moved_to(v, InstallerStep::UserDetails)
        } else {
            v
        },
        InstallerEvent::Back => if v.step == InstallerStep::UserDetails {
            moved_to(v, InstallerStep::Welcome)
        } else if v.step == InstallerStep::InstallPath {
            moved_to(v, InstallerStep::UserDetails)
        } else {
            v
        },
        InstallerEvent::Next => if v.step == InstallerStep::UserDetails {
            if trim_ws(v.username).len() > 0 {
                moved_to(v, InstallerStep::InstallPath)
            } else {
                InstallerView { status_message: "Username cannot be empty!"@, ..v }
            }
        } else {
            v
        },
        InstallerEvent::InstallNow => if v.step == InstallerStep::InstallPath {
            moved_to(v, InstallerStep::Installing)
        } else {
            v
        },
        InstallerEvent::PathPicked(p) => if v.step == InstallerStep::InstallPath {
            InstallerView { install_path: p@, ..v }
        } else {
            v
        },
        InstallerEvent::Installed(r) => if v.step == InstallerStep::Installing
            && !v.installation_complete {
            match r {
                Ok(()) => moved_to(
                    InstallerView { installation_complete: true, ..v },
                    InstallerStep::Finished,
                ),
                Err(msg) => InstallerView { status_message: "Error: "@ + msg@, ..v },
            }
        } else {
            v
        },
    }
}

/// The wizard after the events of successive frames, in order.
pub open spec fn installer_run(v: InstallerView, events: Seq<InstallerEvent>) -> InstallerView
    decreases events.len(),
{
    if events.len() == 0 {
        v
    } else {
        installer_step(installer_run(v, events.drop_last()), events.last())
    }
}

/// `e` reports a successful installation.
pub open spec fn is_install_success(e: InstallerEvent) -> bool {
    e matches InstallerEvent::Installed(Ok(_))
}

/// Event `i` of `events` is a successful installation reported while the
/// wizard, run from `v`, was on the installing page.
pub open spec fn installed_at(v: InstallerView, events: Seq<InstallerEvent>, i: int) -> bool {
    &&& 0 <= i < events.len()
    &&& is_install_success(events[i])
    &&& installer_run(v, events.take(i)).step == InstallerStep::Installing
}

/// No later frame undoes a finished installation: once the wizard is on its
/// last page, no event changes anything, and a completed installation stays
/// completed whatever comes after it.
pub proof fn lemma_installation_never_undone(v: InstallerView, events: Seq<InstallerEvent>)
    ensures
        v.step == InstallerStep::Finished ==> installer_run(v, events) == v,
        v.installation_complete ==> installer_run(v, events).installation_complete,
    decreases events.len(),
{
    if events.len() > 0 {
        lemma_installation_never_undone(v, events.drop_last());
    }
}

/// The wizard is on its last page exactly when the installation is complete:
/// true of a new wizard, and kept by every sequence of events.
pub proof fn lemma_finished_iff_complete(v: InstallerView, events: Seq<InstallerEvent>)
    requires
        v.installation_complete <==> v.step == InstallerStep::Finished,
    ensures
        installer_run(v, events).installation_complete <==> installer_run(v, events).step
            == InstallerStep::Finished,
    decreases events.len(),
{
    if events.len() > 0 {
        lemma_finished_iff_complete(v, events.drop_last());
    }
}

/// Starting from a wizard whose installation is not complete, it is complete
/// after a run of events exactly when one of them reported a successful
/// installation while the wizard was on the installing page.
pub proof fn lemma_complete_iff_installed(v: InstallerView, events: Seq<InstallerEvent>)
    requires
        !v.installation_complete,
    ensures
        installer_run(v, events).installation_complete <==> exists|i: int|
            #[trigger] installed_at(v, events, i),
    decreases events.len(),
{
    if events.len() > 0 {
        let n = events.len() - 1;
        let before = events.drop_last();
        lemma_complete_iff_installed(v, before);
        assert(events.take(n) =~= before);
        assert forall|i: int| 0 <= i < n implies #[trigger] installed_at(v, events, i)
            == installed_at(v, before, i) by {
            assert(events.take(i) =~= before.take(i));
        }
        let prior = installer_run(v, before);
        if prior.installation_complete {
            let w = choose|i: int| installed_at(v, before, i);
            assert(installed_at(v, events, w));
        } else if installed_at(v, events, n) {
        } else {
            assert forall|i: int| !installed_at(v, events, i) by {
                if 0 <= i < n {
                    assert(!installed_at(v, before, i));
                }
            }
        }
    }
}

/// The user `PATH` after adding `entry`: unchanged (`None`) when it already
/// contains the entry, else the entry appended after a `;` separator unless
/// the value already ends with one.
pub open spec fn path_with(current: Seq<char>, entry: Seq<char>) -> Option<Seq<char>> {
    if contains_text(current, entry) {
        None
    } else if current.len() > 0 && current.last() == ';' {
        Some(current + entry)
    } else {
        Some(current + seq![';'] + entry)
    }
}

/// The PowerShell script that creates a shortcut at `link` to `target`,
/// starting in `dir`.
pub open spec fn shortcut_script_text(link: Seq<char>, target: Seq<char>, dir: Seq<char>) -> Seq<
    char,
> {
    "$s=(New-Object -COM WScript.Shell).CreateShortcut('"@ + link + "');$s.TargetPath='"@ + target
        + "';$s.WorkingDirectory='"@ + dir + "';$s.Save()"@
}

impl Installer {
    /// The wizard on its welcome page, with the given user name and
    /// installation path.
    pub fn new(username: String, install_path: String) -> (i: Installer)
        ensures
            i@ == (InstallerView {
                step: InstallerStep::Welcome,
                username: username@,
                install_path: install_path@,
                status_message: Seq::empty(),
                installation_complete: false,
            }),
    {
        Installer {
            step: InstallerStep::Welcome,
            username,
            install_path,
            status_message: String::new(),
            installation_complete: false,
        }
    }

    fn move_to(&mut self, next: InstallerStep)
        ensures
            final(self)@ == moved_to(old(self)@, next),
    {
        self.step = next;
        self.status_message = String::new();
    }

    /// Applies one event.
    pub fn apply(&mut self, event: InstallerEvent)
        ensures
            final(self)@ == installer_step(old(self)@, event),
    {
        let ghost e = event;
        match event {
            InstallerEvent::GetStarted => {
                if self.step == InstallerStep::Welcome {
                    self.move_to(InstallerStep::UserDetails);
                }
            },
            InstallerEvent::Back => {
                if self.step == InstallerStep::UserDetails {
                    self.move_to(InstallerStep::Welcome);
                } else if self.step == InstallerStep::InstallPath {
                    self.move_to(InstallerStep::UserDetails);
                }
            },
            InstallerEvent::Next => {
                if self.step == InstallerStep::UserDetails {
                    if !is_blank(self.username.as_str()) {
                        self.move_to(InstallerStep::InstallPath);
                    } else {
                        self.status_message = String::from_str("Username cannot be empty!");
                    }
                }
            },
            InstallerEvent::InstallNow => {
                if self.step == InstallerStep::InstallPath {
                    self.move_to(InstallerStep::Installing);
                }
            },
            InstallerEvent::PathPicked(p) => {
                if self.step == InstallerStep::InstallPath {
                    self.install_path = p;
                }
            },
            InstallerEvent::Installed(r) => {
                if self.step == InstallerStep::Installing && !self.installation_complete {
                    match r {
                        Ok(()) => {
                            self.installation_complete = true;
                            self.move_to(InstallerStep::Finished);
                        },
                        Err(msg) => {
                            let mut text = String::from_str("Error: ");
                            text.append(msg.as_str());
                            self.status_message = text;
                        },
                    }
                }
            },
        }
    }
}

/// `s` starts with the verbatim prefix `\\?\`, under which Windows rebuilds
/// a path when a component is pushed onto it.
pub open spec fn is_verbatim(s: Seq<char>) -> bool {
    s.len() >= 4 && s[0] == '\\' && s[1] == '\\' && s[2] == '?' && s[3] == '\\'
}

/// `joined` is `base` with the relative component `name` pushed onto it:
/// `base`, a separator (`/` or `\`, by platform) unless `base` is empty or
/// already ends in one (or, on Windows, is a bare drive such as `C:`), then
/// `name`.
pub open spec fn pushed_path(base: Seq<char>, name: Seq<char>, joined: Seq<char>) -> bool {
    &&& joined == base + name || joined == base + seq!['/'] + name || joined == base + seq!['\\']
        + name
    &&& (base.len() == 0 || base.last() == '/') ==> joined == base + name
}

/// Pushes a path component onto a path and gives back the text
/// (`std::path::PathBuf::push` followed by `to_string_lossy`). For a plain
/// component pushed onto a path without a verbatim prefix, the result is
/// `pushed_path` of the two under both the Unix and the Windows rules;
/// which separator goes in is the platform's, and what a verbatim path
/// becomes is left unsaid here.
#[verifier::external_body]
fn push_component(base: &str, name: &str) -> (joined: String)
    ensures
        is_plain_component(name@) && !is_verbatim(base@) ==> pushed_path(base@, name@, joined@),
{
    let mut path = std::path::PathBuf::from(base);
    path.push(name);
    path.to_string_lossy().into_owned()
}

/// The installation directory: the local data directory (when there is one)
/// with the application's name pushed onto it, else `C:\NebulaCLI`.
pub fn default_install_path(data_dir: Option<String>) -> (p: String)
    ensures
        match data_dir {
            Some(d) => !is_verbatim(d@) ==> pushed_path(d@, "NebulaCLI"@, p@),
            None => p@ == "C:\\NebulaCLI"@,
        },
{
    match data_dir {
        Some(d) => {
            let name = "NebulaCLI";
            proof {
                reveal_strlit("NebulaCLI");
                let t = seq!['N', 'e', 'b', 'u', 'l', 'a', 'C', 'L', 'I'];
                assert(name@ =~= t);
                assert(name@ != seq!['.']) by {
                    assert(name@.len() != seq!['.'].len());
                }
                assert(name@ != seq!['.', '.']) by {
                    assert(name@.len() != seq!['.', '.'].len());
                }
                assert(has_no_separator(name@)) by {
                    assert forall|i: int| 0 <= i < t.len() implies #[trigger] t[i] != '/' && t[i]
                        != '\\' && t[i] != ':' by {
                        assert(0 <= i < 9);
                    }
                }
            }
            push_component(d.as_str(), name)
        },
        None => String::from_str("C:\\NebulaCLI"),
    }
}

/// The user `PATH` after adding `entry`, or `None` when it already holds it.
pub fn path_with_entry(current: &str, entry: &str) -> (res: Option<String>)
    ensures
        res matches Some(p) ==> path_with(current@, entry@) == Some(p@),
        res is None ==> path_with(current@, entry@) is None,
{
    if contains_str(current, entry) {
        return None;
    }
    let chars = crate::text::chars_of(current);
    let mut path = String::from_str(current);
    if chars.len() > 0 && chars[chars.len() - 1] == ';' {
        path.append(entry);
    } else {
        crate::text::push_char(&mut path, ';');
        path.append(entry);
    }
    Some(path)
}

/// The PowerShell script that creates a shortcut.
pub fn shortcut_script(link: &str, target: &str, dir: &str) -> (s: String)
    ensures
        s@ == shortcut_script_text(link@, target@, dir@),
{
    let mut s = String::from_str("$s=(New-Object -COM WScript.Shell).CreateShortcut('");
    s.append(link);
    s.append("');$s.TargetPath='");
    s.append(target);
    s.append("';$s.WorkingDirectory='");
    s.append(dir);
    s.append("';$s.Save()");
    s
}

/// The context-menu command that opens the terminal: the executable's path
/// in double quotes.
pub fn context_menu_command(exe: &str) -> (s: String)
    ensures
        s@ == seq!['"'] + exe@ + seq!['"'],
{
    let mut s = String::new();
    crate::text::push_char(&mut s, '"');
    s.append(exe);
    crate::text::push_char(&mut s, '"');
    s
}

/// Adding an entry to the `PATH` keeps what was there, and the result holds
/// the entry, so adding it again changes nothing.
pub proof fn lemma_path_entry_idempotent(current: Seq<char>, entry: Seq<char>)
    ensures
        path_with(current, entry) matches Some(p) ==> {
            &&& p.take(current.len() as int) == current
            &&& contains_text(p, entry)
            &&& path_with(p, entry) is None
        },
{
    if let Some(p) = path_with(current, entry) {
        let i = p.len() - entry.len();
        assert(p.subrange(i, i + entry.len()) =~= entry);
        assert(contains_text(p, entry));
        assert(p.take(current.len() as int) =~= current);
    }
}

} // verus!
