//! Planning a browser launch: the argument vector, the executable, the
//! profile directory, and the endpoint that the browser announces.

use crate::browser::{Browser, ChildProcess, ProcessState};
use crate::connection::{Connection, ConnectionView};
use crate::text::{has_prefix, starts_with, texts};
use crate::ws::{TransportView, WebSocketTransport};
use rand::Rng;
use vstd::prelude::*;
use vstd::string::*;

verus! {

/// The size and kind of the page area.
#[allow(non_snake_case)]
#[derive(Debug)]
pub struct Viewport {
    pub width: i32,
    pub height: i32,
    pub deviceScaleFactor: i32,
    pub isMobile: bool,
    pub hasTouch: bool,
    pub isLandscape: bool,
}

/// How a browser is to be launched.
#[derive(Debug)]
pub struct LaunchOptions {
    pub ignore_https_errors: bool,
    pub headless: bool,
    /// The executable to run in place of the bundled one.
    pub executable_path: Option<String>,
    /// The delay before each send, in milliseconds.
    pub slow_mo: u32,
    pub default_viewport: Option<Viewport>,
    /// Arguments added behind the baseline.
    pub args: Vec<String>,
    pub ignore_default_args: bool,
    /// How long to wait for the endpoint, in milliseconds.
    pub timeout: u32,
    pub dumpio: bool,
    pub user_data_dir: Option<String>,
    /// Environment variables set for the browser, as name and value.
    pub env: Vec<(String, String)>,
    pub devtools: bool,
    /// Whether the debugging channel is a pipe rather than a port.
    pub pipe: bool,
}

impl LaunchOptions {
    /// The defaults: headless, no overrides, no extra arguments, thirty
    /// seconds for the endpoint, no delay, debugging over a port.
    pub fn new() -> (r: LaunchOptions)
        ensures
            !r.ignore_https_errors,
            r.headless,
            r.executable_path is None,
            r.slow_mo == 0,
            r.default_viewport is None,
            r.args@.len() == 0,
            !r.ignore_default_args,
            r.timeout == 30000,
            !r.dumpio,
            r.user_data_dir is None,
            r.env@.len() == 0,
            !r.devtools,
            !r.pipe,
    {
        LaunchOptions {
            ignore_https_errors: false,
            headless: true,
            executable_path: None,
            slow_mo: 0,
            default_viewport: None,
            args: Vec::new(),
            ignore_default_args: false,
            timeout: 30000,
            dumpio: false,
            user_data_dir: None,
            env: Vec::new(),
            devtools: false,
            pipe: false,
        }
    }
}

/// Why a launch failed.
#[derive(Debug, Clone, Copy, PartialEq, Eq, Structural)]
pub enum LaunchError {
    /// The process could not be started.
    SpawnFailed,
    /// Neither an override nor a bundled executable is there.
    ExecutableNotFound,
    /// The browser's output ended, or the time ran out, before it announced
    /// its endpoint.
    EndpointDiscovery,
}

/// Some item begins with `needle`.
pub open spec fn any_starts_with(haystack: Seq<Seq<char>>, needle: Seq<char>) -> bool {
    exists|i: int| 0 <= i < haystack.len() && starts_with(#[trigger] haystack[i], needle)
}

/// Decides whether some item of `haystack` begins with `needle`.
pub fn has(needle: &str, haystack: &Vec<String>) -> (r: bool)
    ensures
        r == any_starts_with(texts(haystack@), needle@),
{
    let mut i: usize = 0;
    while i < haystack.len()
        invariant
            i <= haystack.len(),
            forall|k: int| 0 <= k < i ==> !starts_with(#[trigger] texts(haystack@)[k], needle@),
        decreases haystack.len() - i,
    {
        if has_prefix(haystack[i].as_str(), needle) {
            assert(starts_with(texts(haystack@)[i as int], needle@));
            return true;
        }
        i += 1;
    }
    false
}

/// The flags that every launch starts from.
pub open spec fn baseline_arguments() -> Seq<Seq<char>> {
    seq![
        "--disable-background-networking"@,
        "--disable-background-timer-throttling"@,
        "--disable-backgrounding-occluded-windows"@,
        "--disable-breakpad"@,
        "--disable-client-side-phishing-detection"@,
        "--disable-default-apps"@,
        "--disable-dev-shm-usage"@,
        "--disable-extensions"@,
        "--disable-features=site-per-process"@,
        "--disable-hang-monitor"@,
        "--disable-ipc-flooding-protection"@,
        "--disable-popup-blocking"@,
        "--disable-prompt-on-repost"@,
        "--disable-renderer-backgrounding"@,
        "--disable-sync"@,
        "--disable-translate"@,
        "--metrics-recording-only"@,
        "--no-first-run"@,
        "--safebrowsing-disable-auto-update"@,
        "--enable-automation"@,
        "--password-store=basic"@,
        "--use-mock-keychain"@,
    ]
}

/// The flag that opens the debugging channel.
pub open spec fn debugging_flag(pipe: bool) -> Seq<char> {
    if pipe {
        "--remote-debugging-pipe"@
    } else {
        "--remote-debugging-port=0"@
    }
}

/// The argument vector of a launch: the baseline, then the caller's
/// arguments, then the debugging flag unless an argument before it begins
/// with `--remote-debugging`, then the profile directory's flag unless an
/// argument before it begins with `--user-data-dir`.
pub open spec fn launch_arguments(
    extra: Seq<Seq<char>>,
    pipe: bool,
    profile_dir: Seq<char>,
) -> Seq<Seq<char>> {
    let given = baseline_arguments() + extra;
    let debugged = if any_starts_with(given, "--remote-debugging"@) {
        given
    } else {
        given.push(debugging_flag(pipe))
    };
    if any_starts_with(debugged, "--user-data-dir"@) {
        debugged
    } else {
        debugged.push("--user-data-dir="@ + profile_dir)
    }
}

/// The profile directory of a launch: the one that was named, else the one
/// that was made for it.
pub open spec fn profile_directory(named: Option<Seq<char>>, generated: Seq<char>) -> Seq<char> {
    match named {
        Some(dir) => dir,
        None => generated,
    }
}

/// The executable of a launch: the one that was named, else the bundled
/// one, if either is there.
pub open spec fn resolved_executable(
    named: Option<Seq<char>>,
    bundled: Option<Seq<char>>,
) -> Option<Seq<char>> {
    match named {
        Some(path) => Some(path),
        None => bundled,
    }
}

/// What to run for a launch.
#[derive(Debug)]
pub struct LaunchPlan {
    pub executable: String,
    pub arguments: Vec<String>,
}

/// The text of an optional string.
pub open spec fn optional_text(s: Option<String>) -> Option<Seq<char>> {
    match s {
        Some(text) => Some(text@),
        None => None,
    }
}

/// The name that a generated profile directory begins with.
pub open spec fn profile_prefix() -> Seq<char> {
    "puppeteer_dev_profile-"@
}

/// A letter of the basic Latin alphabet or a decimal digit.
pub open spec fn is_alphanumeric(c: char) -> bool {
    ('A' <= c && c <= 'Z') || ('a' <= c && c <= 'z') || ('0' <= c && c <= '9')
}

/// Draws `count` characters from `rand`'s thread-local generator with its
/// `Alphanumeric` distribution, which yields only the letters `A` to `Z` and
/// `a` to `z` and the digits. Which ones is left open.
#[verifier::external_body]
fn random_alphanumeric(count: usize) -> (r: String)
    ensures
        r@.len() == count,
        forall|i: int| 0 <= i < r@.len() ==> is_alphanumeric(#[trigger] r@[i]),
{
    rand::thread_rng().sample_iter(&rand::distributions::Alphanumeric).take(count).collect()
}

#[verifier::external_type_specification]
#[verifier::external_body]
pub struct ExRegexError(regex::Error);

/// What the `regex` crate finds for a pattern in a text: `None` where it
/// refuses the pattern; otherwise the text of the capture group `group` of
/// the leftmost match, where the pattern matches and that group took part.
pub uninterp spec fn regex_group(pattern: Seq<char>, text: Seq<char>, group: usize) -> Option<
    Option<Seq<char>>,
>;

/// Compiles the pattern with `Regex::new`, searches the text with
/// `captures`, and copies out the group with `get` and `as_str`. The
/// contract only names the outcome; a refused pattern is the crate's error.
#[verifier::external_body]
fn capture_group(pattern: &str, text: &str, group: usize) -> (r: Result<
    Option<String>,
    regex::Error,
>)
    ensures
        match r {
            Ok(found) => regex_group(pattern@, text@, group) == Some(optional_text(found)),
            Err(_) => regex_group(pattern@, text@, group) == None::<Option<Seq<char>>>,
        },
{
    match regex::Regex::new(pattern) {
        Ok(re) => Ok(re.captures(text).and_then(|c| c.get(group)).map(|m| m.as_str().to_string())),
        Err(error) => Err(error),
    }
}

/// The pattern of the line in which the browser announces its endpoint.
pub open spec fn endpoint_pattern() -> Seq<char> {
    "^DevTools listening on (ws://.*)$"@
}

/// The endpoint that a line announces, if it announces one: what the
/// pattern's first group holds.
pub open spec fn announced(line: Seq<char>) -> Option<Seq<char>> {
    match regex_group(endpoint_pattern(), line, 1) {
        Some(found) => found,
        None => None,
    }
}

/// The endpoints that the lines announce, line by line.
pub open spec fn announcements(lines: Seq<String>) -> Seq<Option<Seq<char>>> {
    Seq::new(lines.len(), |i: int| announced(lines[i]@))
}

/// The texts of a list of optional strings.
pub open spec fn optional_texts(items: Seq<Option<String>>) -> Seq<Option<Seq<char>>> {
    Seq::new(items.len(), |i: int| optional_text(items[i]))
}

/// The first endpoint among `found` is `url`; without `url` there is none.
pub open spec fn is_first_endpoint(found: Seq<Option<Seq<char>>>, url: Option<Seq<char>>) -> bool {
    match url {
        Some(text) => exists|at: int|
            0 <= at < found.len() && #[trigger] found[at] == Some(text) && forall|k: int|
                0 <= k < at ==> found[k] is None,
        None => forall|k: int| 0 <= k < found.len() ==> found[k] is None,
    }
}

/// The text of a discovery's result.
pub open spec fn discovered_text(r: Result<String, LaunchError>) -> Option<Seq<char>> {
    match r {
        Ok(url) => Some(url@),
        Err(_) => None,
    }
}

/// Starts browsers.
#[derive(Debug)]
pub struct Launcher {
    project_root: Option<String>,
}

impl Launcher {
    /// The directory that the launcher was made for, if any.
    pub closed spec fn root(self) -> Option<Seq<char>> {
        optional_text(self.project_root)
    }

    /// A launcher without a project directory.
    pub fn new() -> (r: Launcher)
        ensures
            r.root() == None::<Seq<char>>,
    {
        Launcher { project_root: None }
    }

    /// A launcher for the given project directory.
    pub fn from_root(project_root: String) -> (r: Launcher)
        ensures
            r.root() == Some(project_root@),
    {
        Launcher { project_root: Some(project_root) }
    }

    /// The flags that every launch starts from.
    pub fn initial_arguments() -> (r: Vec<String>)
        ensures
            texts(r@) == baseline_arguments(),
    {
        let mut chrome_arguments: Vec<String> = Vec::new();
        chrome_arguments.push(String::from_str("--disable-background-networking"));
        chrome_arguments.push(String::from_str("--disable-background-timer-throttling"));
        chrome_arguments.push(String::from_str("--disable-backgrounding-occluded-windows"));
        chrome_arguments.push(String::from_str("--disable-breakpad"));
        chrome_arguments.push(String::from_str("--disable-client-side-phishing-detection"));
        chrome_arguments.push(String::from_str("--disable-default-apps"));
        chrome_arguments.push(String::from_str("--disable-dev-shm-usage"));
        chrome_arguments.push(String::from_str("--disable-extensions"));
        chrome_arguments.push(String::from_str("--disable-features=site-per-process"));
        chrome_arguments.push(String::from_str("--disable-hang-monitor"));
        chrome_arguments.push(String::from_str("--disable-ipc-flooding-protection"));
        chrome_arguments.push(String::from_str("--disable-popup-blocking"));
        chrome_arguments.push(String::from_str("--disable-prompt-on-repost"));
        chrome_arguments.push(String::from_str("--disable-renderer-backgrounding"));
        chrome_arguments.push(String::from_str("--disable-sync"));
        chrome_arguments.push(String::from_str("--disable-translate"));
        chrome_arguments.push(String::from_str("--metrics-recording-only"));
        chrome_arguments.push(String::from_str("--no-first-run"));
        chrome_arguments.push(String::from_str("--safebrowsing-disable-auto-update"));
        chrome_arguments.push(String::from_str("--enable-automation"));
        chrome_arguments.push(String::from_str("--password-store=basic"));
        chrome_arguments.push(String::from_str("--use-mock-keychain"));
        assert(texts(chrome_arguments@) =~= baseline_arguments());
        chrome_arguments
    }

    /// Whether a launch with these options needs a profile directory made
    /// for it: none was named, and no argument names one either.
    pub fn needs_temporary_profile(options: &LaunchOptions) -> (r: bool)
        ensures
            r == (options.user_data_dir is None && !any_starts_with(
                texts(options.args@),
                "--user-data-dir"@,
            )),
    {
        let named = has("--user-data-dir", &options.args);
        options.user_data_dir.is_none() && !named
    }

    /// A name for a profile directory that is made for one launch: a fixed
    /// beginning and six characters drawn at random.
    pub fn temporary_profile_name() -> (r: String)
        ensures
            r@.len() == profile_prefix().len() + 6,
            r@.subrange(0, profile_prefix().len() as int) == profile_prefix(),
            forall|i: int| profile_prefix().len() <= i < r@.len() ==> is_alphanumeric(r@[i]),
    {
        let id = random_alphanumeric(6);
        let name = String::from_str("puppeteer_dev_profile-").concat(id.as_str());
        proof {
            assert(name@.subrange(0, profile_prefix().len() as int) =~= profile_prefix());
            assert forall|i: int| profile_prefix().len() <= i < name@.len() implies is_alphanumeric(
                name@[i],
            ) by {
                assert(name@[i] == id@[i - profile_prefix().len()]);
            }
        }
        name
    }

    /// The argument vector for a launch with these options. The profile
    /// directory is the one the options name, else `generated`, a directory
    /// made for this launch.
    pub fn arguments(options: &LaunchOptions, generated: &str) -> (r: Vec<String>)
        ensures
            texts(r@) == launch_arguments(
                texts(options.args@),
                options.pipe,
                profile_directory(optional_text(options.user_data_dir), generated@),
            ),
    {
        let profile_dir = match &options.user_data_dir {
            Some(dir) => dir.as_str(),
            None => generated,
        };
        let mut chrome_arguments = Launcher::initial_arguments();
        let ghost extra = texts(options.args@);
        let mut i: usize = 0;
        while i < options.args.len()
            invariant
                i <= options.args.len(),
                extra == texts(options.args@),
                texts(chrome_arguments@) == baseline_arguments() + extra.subrange(0, i as int),
            decreases options.args.len() - i,
        {
            let ghost before = texts(chrome_arguments@);
            chrome_arguments.push(options.args[i].clone());
            proof {
                assert(texts(chrome_arguments@) =~= before.push(extra[i as int]));
                assert(before.push(extra[i as int]) =~= baseline_arguments() + extra.subrange(
                    0,
                    i + 1,
                ));
            }
            i += 1;
        }
        proof {
            assert(extra.subrange(0, i as int) =~= extra);
        }
        let debugging = has("--remote-debugging", &chrome_arguments);
        if !debugging {
            let ghost before = texts(chrome_arguments@);
            let debug_argument = if options.pipe {
                String::from_str("--remote-debugging-pipe")
            } else {
                String::from_str("--remote-debugging-port=0")
            };
            chrome_arguments.push(debug_argument);
            proof {
                assert(texts(chrome_arguments@) =~= before.push(debugging_flag(options.pipe)));
            }
        }
        let profiled = has("--user-data-dir", &chrome_arguments);
        if !profiled {
            let ghost before = texts(chrome_arguments@);
            let flag = String::from_str("--user-data-dir=").concat(profile_dir);
            chrome_arguments.push(flag);
            proof {
                assert(texts(chrome_arguments@) =~= before.push(
                    "--user-data-dir="@ + profile_dir@,
                ));
            }
        }
        chrome_arguments
    }

    /// The executable to launch: the one the options name; else the bundled
    /// one, where `bundled` says that it is there; else none.
    pub fn resolve_executable_path(&self, options: &LaunchOptions, bundled: Option<String>) -> (r:
        Result<String, LaunchError>)
        ensures
            match r {
                Ok(path) => resolved_executable(
                    optional_text(options.executable_path),
                    optional_text(bundled),
                ) == Some(path@),
                Err(e) => e == LaunchError::ExecutableNotFound && resolved_executable(
                    optional_text(options.executable_path),
                    optional_text(bundled),
                ) is None,
            },
    {
        match &options.executable_path {
            Some(path) => Ok(path.clone()),
            None => match bundled {
                Some(path) => Ok(path),
                None => Err(LaunchError::ExecutableNotFound),
            },
        }
    }

    /// Plans a launch: the executable and its arguments. It fails exactly
    /// where no executable is there.
    pub fn launch(&self, options: &LaunchOptions, bundled: Option<String>, generated: &str) -> (r:
        Result<LaunchPlan, LaunchError>)
        ensures
            match r {
                Ok(plan) => resolved_executable(
                    optional_text(options.executable_path),
                    optional_text(bundled),
                ) == Some(plan.executable@) && texts(plan.arguments@) == launch_arguments(
                    texts(options.args@),
                    options.pipe,
                    profile_directory(optional_text(options.user_data_dir), generated@),
                ),
                Err(e) => e == LaunchError::ExecutableNotFound && resolved_executable(
                    optional_text(options.executable_path),
                    optional_text(bundled),
                ) is None,
            },
    {
        let chrome_arguments = Launcher::arguments(options, generated);
        match self.resolve_executable_path(options, bundled) {
            Ok(chrome_executable) => Ok(
                LaunchPlan { executable: chrome_executable, arguments: chrome_arguments },
            ),
            Err(e) => Err(e),
        }
    }

    /// The browser behind a process that has announced its endpoint: a
    /// starting process is running from now on, and the connection to the
    /// endpoint has issued no id and awaits its handshake.
    pub fn attach(endpoint: String, child_process: ChildProcess, slow_mo: u32) -> (r: Browser)
        ensures
            r.well_formed(),
            r.child_process == (ChildProcess {
                id: child_process.id,
                state: if child_process.state == ProcessState::Starting {
                    ProcessState::Running
                } else {
                    child_process.state
                },
            }),
            r.connection@ == (ConnectionView {
                endpoint: endpoint@,
                slow_mo: slow_mo,
                issued: 0,
                transport: TransportView::fresh(),
            }),
    {
        let mut child_process = child_process;
        child_process.endpoint_discovered();
        let transport = WebSocketTransport::new();
        let connection = Connection::new(endpoint, transport, slow_mo);
        Browser::new(connection, child_process)
    }

    /// The endpoint that one line of the browser's output announces, if it
    /// announces one.
    pub fn endpoint_in_line(line: &str) -> (r: Option<String>)
        ensures
            optional_text(r) == announced(line@),
    {
        match capture_group("^DevTools listening on (ws://.*)$", line, 1) {
            Ok(found) => found,
            Err(_) => None,
        }
    }

    /// The first endpoint among what was found line by line; without one
    /// the discovery has failed.
    pub fn first_endpoint(found: &Vec<Option<String>>) -> (r: Result<String, LaunchError>)
        ensures
            is_first_endpoint(optional_texts(found@), discovered_text(r)),
            r is Err ==> r == Err::<String, LaunchError>(LaunchError::EndpointDiscovery),
    {
        let ghost all = optional_texts(found@);
        let mut i: usize = 0;
        while i < found.len()
            invariant
                i <= found.len(),
                all == optional_texts(found@),
                forall|k: int| 0 <= k < i ==> all[k] is None,
            decreases found.len() - i,
        {
            match &found[i] {
                Some(url) => {
                    let url = url.clone();
                    assert(all[i as int] == Some(url@));
                    return Ok(url);
                },
                None => {
                    assert(all[i as int] is None);
                },
            }
            i += 1;
        }
        Err(LaunchError::EndpointDiscovery)
    }

    /// Reads the browser's whole output, line by line, for its endpoint: the
    /// one that the first announcing line gives. Output without such a line
    /// fails the discovery.
    pub fn wait_for_ws_endpoint(lines: &Vec<String>) -> (r: Result<String, LaunchError>)
        ensures
            is_first_endpoint(announcements(lines@), discovered_text(r)),
            r is Err ==> r == Err::<String, LaunchError>(LaunchError::EndpointDiscovery),
    {
        let ghost all = announcements(lines@);
        let mut i: usize = 0;
        while i < lines.len()
            invariant
                i <= lines.len(),
                all == announcements(lines@),
                forall|k: int| 0 <= k < i ==> all[k] is None,
            decreases lines.len() - i,
        {
            match Launcher::endpoint_in_line(lines[i].as_str()) {
                Some(url) => {
                    assert(all[i as int] == Some(url@));
                    return Ok(url);
                },
                None => {
                    assert(all[i as int] is None);
                },
            }
            i += 1;
        }
        Err(LaunchError::EndpointDiscovery)
    }
}

/// How many items begin with `prefix`.
pub open spec fn count_starting_with(items: Seq<Seq<char>>, prefix: Seq<char>) -> nat
    decreases items.len(),
{
    if items.len() == 0 {
        0
    } else {
        count_starting_with(items.drop_last(), prefix) + if starts_with(items.last(), prefix) {
            1nat
        } else {
            0nat
        }
    }
}

/// A text that differs from `prefix` at some place of `prefix`, or ends
/// before that place, does not begin with it.
proof fn lemma_differs_at(text: Seq<char>, prefix: Seq<char>, at: int)
    requires
        0 <= at < prefix.len(),
        at < text.len() ==> text[at] != prefix[at],
    ensures
        !starts_with(text, prefix),
{
    if prefix.len() <= text.len() {
        assert(text.subrange(0, prefix.len() as int)[at] == text[at]);
    }
}

/// Counting over a list with one more item.
proof fn lemma_count_push(items: Seq<Seq<char>>, item: Seq<char>, prefix: Seq<char>)
    ensures
        count_starting_with(items.push(item), prefix) == count_starting_with(items, prefix) + if starts_with(
            item,
            prefix,
        ) {
            1nat
        } else {
            0nat
        },
{
    assert(items.push(item).drop_last() =~= items);
}

/// Counting over two lists, one behind the other.
proof fn lemma_count_concat(first: Seq<Seq<char>>, second: Seq<Seq<char>>, prefix: Seq<char>)
    ensures
        count_starting_with(first + second, prefix) == count_starting_with(first, prefix)
            + count_starting_with(second, prefix),
    decreases second.len(),
{
    if second.len() == 0 {
        assert(first + second =~= first);
    } else {
        lemma_count_concat(first, second.drop_last(), prefix);
        assert((first + second).drop_last() =~= first + second.drop_last());
        assert((first + second).last() == second.last());
    }
}

/// Nothing is counted exactly where no item begins with the prefix.
proof fn lemma_count_zero(items: Seq<Seq<char>>, prefix: Seq<char>)
    ensures
        (count_starting_with(items, prefix) == 0) == !any_starts_with(items, prefix),
    decreases items.len(),
{
    if items.len() > 0 {
        let front = items.drop_last();
        lemma_count_zero(front, prefix);
        if any_starts_with(items, prefix) {
            let i = choose|i: int| 0 <= i < items.len() && starts_with(#[trigger] items[i], prefix);
            if i < front.len() {
                assert(starts_with(front[i], prefix));
            }
        }
        if any_starts_with(front, prefix) {
            let i = choose|i: int| 0 <= i < front.len() && starts_with(#[trigger] front[i], prefix);
            assert(starts_with(items[i], prefix));
        }
        if starts_with(items.last(), prefix) {
            assert(starts_with(items[items.len() - 1], prefix));
        }
    }
}

/// No flag of the baseline opens a debugging channel.
proof fn lemma_baseline_opens_no_channel()
    ensures
        !any_starts_with(baseline_arguments(), "--remote-debugging"@),
{
    let prefix = "--remote-debugging"@;
    let base = baseline_arguments();
    reveal_strlit("--remote-debugging");
    reveal_strlit("--disable-background-networking");
    reveal_strlit("--disable-background-timer-throttling");
    reveal_strlit("--disable-backgrounding-occluded-windows");
    reveal_strlit("--disable-breakpad");
    reveal_strlit("--disable-client-side-phishing-detection");
    reveal_strlit("--disable-default-apps");
    reveal_strlit("--disable-dev-shm-usage");
    reveal_strlit("--disable-extensions");
    reveal_strlit("--disable-features=site-per-process");
    reveal_strlit("--disable-hang-monitor");
    reveal_strlit("--disable-ipc-flooding-protection");
    reveal_strlit("--disable-popup-blocking");
    reveal_strlit("--disable-prompt-on-repost");
    reveal_strlit("--disable-renderer-backgrounding");
    reveal_strlit("--disable-sync");
    reveal_strlit("--disable-translate");
    reveal_strlit("--metrics-recording-only");
    reveal_strlit("--no-first-run");
    reveal_strlit("--safebrowsing-disable-auto-update");
    reveal_strlit("--enable-automation");
    reveal_strlit("--password-store=basic");
    reveal_strlit("--use-mock-keychain");
    assert forall|i: int| 0 <= i < base.len() implies !starts_with(#[trigger] base[i], prefix) by {
        if i == 0 {
            lemma_differs_at(base[0], prefix, 2);
        } else if i == 1 {
            lemma_differs_at(base[1], prefix, 2);
        } else if i == 2 {
            lemma_differs_at(base[2], prefix, 2);
        } else if i == 3 {
            lemma_differs_at(base[3], prefix, 2);
        } else if i == 4 {
            lemma_differs_at(base[4], prefix, 2);
        } else if i == 5 {
            lemma_differs_at(base[5], prefix, 2);
        } else if i == 6 {
            lemma_differs_at(base[6], prefix, 2);
        } else if i == 7 {
            lemma_differs_at(base[7], prefix, 2);
        } else if i == 8 {
            lemma_differs_at(base[8], prefix, 2);
        } else if i == 9 {
            lemma_differs_at(base[9], prefix, 2);
        } else if i == 10 {
            lemma_differs_at(base[10], prefix, 2);
        } else if i == 11 {
            lemma_differs_at(base[11], prefix, 2);
        } else if i == 12 {
            lemma_differs_at(base[12], prefix, 2);
        } else if i == 13 {
            lemma_differs_at(base[13], prefix, 2);
        } else if i == 14 {
            lemma_differs_at(base[14], prefix, 2);
        } else if i == 15 {
            lemma_differs_at(base[15], prefix, 2);
        } else if i == 16 {
            lemma_differs_at(base[16], prefix, 2);
        } else if i == 17 {
            lemma_differs_at(base[17], prefix, 2);
        } else if i == 18 {
            lemma_differs_at(base[18], prefix, 2);
        } else if i == 19 {
            lemma_differs_at(base[19], prefix, 2);
        } else if i == 20 {
            lemma_differs_at(base[20], prefix, 2);
        } else if i == 21 {
            lemma_differs_at(base[21], prefix, 2);
        }
    }
}

/// Each debugging flag begins with `--remote-debugging`; the flag of the
/// profile directory does not.
proof fn lemma_flag_prefixes(pipe: bool, profile_dir: Seq<char>)
    ensures
        starts_with(debugging_flag(pipe), "--remote-debugging"@),
        !starts_with("--user-data-dir="@ + profile_dir, "--remote-debugging"@),
{
    let prefix = "--remote-debugging"@;
    reveal_strlit("--remote-debugging");
    reveal_strlit("--remote-debugging-pipe");
    reveal_strlit("--remote-debugging-port=0");
    reveal_strlit("--user-data-dir=");
    assert(debugging_flag(pipe).subrange(0, prefix.len() as int) =~= prefix);
    lemma_differs_at("--user-data-dir="@ + profile_dir, prefix, 2);
}

/// A launch opens one debugging channel unless the caller's arguments open
/// their own: among the arguments of a launch, as many begin with
/// `--remote-debugging` as among the caller's arguments, and exactly one
/// where none of those does.
pub proof fn lemma_one_debugging_flag(extra: Seq<Seq<char>>, pipe: bool, profile_dir: Seq<char>)
    ensures
        count_starting_with(launch_arguments(extra, pipe, profile_dir), "--remote-debugging"@)
            == if count_starting_with(extra, "--remote-debugging"@) == 0 {
            1
        } else {
            count_starting_with(extra, "--remote-debugging"@)
        },
{
    let prefix = "--remote-debugging"@;
    let given = baseline_arguments() + extra;
    lemma_baseline_opens_no_channel();
    lemma_count_zero(baseline_arguments(), prefix);
    lemma_count_concat(baseline_arguments(), extra, prefix);
    lemma_count_zero(given, prefix);
    lemma_flag_prefixes(pipe, profile_dir);
    let debugged = if any_starts_with(given, prefix) {
        given
    } else {
        given.push(debugging_flag(pipe))
    };
    lemma_count_push(given, debugging_flag(pipe), prefix);
    lemma_count_push(debugged, "--user-data-dir="@ + profile_dir, prefix);
}

} // verus!
