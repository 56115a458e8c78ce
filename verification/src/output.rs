//! What the commands show, line by line.

use vstd::prelude::*;
use vstd::string::*;

use crate::clock::{fmt_timestamp, started_text};
use crate::cmd::doctor::{check_views, Check, CheckStatus, CheckView};
use crate::model::{service_views, Service, ServiceKind, ServiceStatus, ServiceView};
use crate::path::{join, joined};
use crate::text::{
    concat2, concat3, concat4, concat5, decimal, decimal_text, lemma_stands_between, occurs_in,
    opt_str, opt_text, texts,
};

verus! {

/// Add a line.
fn push_line(lines: &mut Vec<String>, line: String)
    ensures
        texts(final(lines)@) == texts(old(lines)@).push(line@),
{
    let ghost before = lines@;
    lines.push(line);
    assert(texts(lines@) =~= texts(before).push(line@));
}

/// Add a line that consists of a caption and what it is about.
fn push_field(lines: &mut Vec<String>, caption: &str, value: &str)
    ensures
        texts(final(lines)@) == texts(old(lines)@).push(caption@ + value@),
{
    push_line(lines, concat2(caption, value));
}

/// The public URL of a service, or what stands for one that is not there yet.
pub open spec fn shown_url(s: ServiceView) -> Seq<char> {
    match s.public_url {
        Some(u) => u,
        None => "(pending)"@,
    }
}

/// The public URL of a service, or what stands for one that is not there yet.
pub fn url_or_pending(service: &Service) -> (r: String)
    ensures
        r@ == shown_url(service@),
{
    match &service.public_url {
        Some(u) => u.clone(),
        None => "(pending)".to_owned(),
    }
}

// ---------------------------------------------------------------------------
// A service that has started
// ---------------------------------------------------------------------------

/// What is shown of a service that has started.
pub open spec fn started_lines(s: ServiceView) -> Seq<Seq<char>> {
    seq![
        "Started "@ + s.name,
        Seq::empty(),
        "ID:      "@ + decimal(s.id as nat),
        "Local:   "@ + s.local_url,
        "Public:  "@ + shown_url(s),
        "Logs:    "@ + s.state_dir + "/"@,
    ]
}

/// What is shown of a service that has started.
pub fn print_started(service: &Service) -> (r: Vec<String>)
    ensures
        texts(r@) == started_lines(service@),
{
    let mut r: Vec<String> = Vec::new();
    push_field(&mut r, "Started ", service.name.as_str());
    push_line(&mut r, String::new());
    push_field(&mut r, "ID:      ", decimal_text(service.id).as_str());
    push_field(&mut r, "Local:   ", service.local_url.as_str());
    push_field(&mut r, "Public:  ", url_or_pending(service).as_str());
    push_line(&mut r, concat3("Logs:    ", service.state_dir.as_str(), "/"));
    assert(texts(r@)[1] =~= Seq::<char>::empty());
    assert(texts(r@) =~= started_lines(service@));
    r
}

/// What is shown of the token of an upload receiver, with an example that can be
/// pasted.
pub open spec fn token_lines(token: Seq<char>, origin: Seq<char>) -> Seq<Seq<char>> {
    seq![
        Seq::empty(),
        "Token:   "@ + token,
        Seq::empty(),
        "Uploads REQUIRE this token (POST/PUT; GET downloads are public), e.g.:"@,
        "  curl -H \"Authorization: Bearer "@ + token + "\" --data-binary @file.txt "@ + origin
            + "/file.txt"@,
        "Recover it later with `ft detail <name>`."@,
    ]
}

/// What is shown of the token of an upload receiver.
pub fn print_drop_token(token: &str, example_origin: &str) -> (r: Vec<String>)
    ensures
        texts(r@) == token_lines(token@, example_origin@),
{
    let mut r: Vec<String> = Vec::new();
    push_line(&mut r, String::new());
    push_field(&mut r, "Token:   ", token);
    push_line(&mut r, String::new());
    push_line(
        &mut r,
        "Uploads REQUIRE this token (POST/PUT; GET downloads are public), e.g.:".to_owned(),
    );
    push_line(
        &mut r,
        concat5(
            "  curl -H \"Authorization: Bearer ",
            token,
            "\" --data-binary @file.txt ",
            example_origin,
            "/file.txt",
        ),
    );
    push_line(&mut r, "Recover it later with `ft detail <name>`.".to_owned());
    assert(texts(r@)[0] =~= Seq::<char>::empty());
    assert(texts(r@)[2] =~= Seq::<char>::empty());
    assert(texts(r@) =~= token_lines(token@, example_origin@));
    r
}

// ---------------------------------------------------------------------------
// The list
// ---------------------------------------------------------------------------

/// The captions of the list.
pub open spec fn list_captions() -> Seq<Seq<char>> {
    seq!["ID"@, "NAME"@, "STATUS"@, "PORT"@, "URL"@]
}

/// The row of a service in the list.
pub open spec fn list_row(s: ServiceView, status: ServiceStatus) -> Seq<Seq<char>> {
    seq![
        decimal(s.id as nat),
        s.name,
        status.word(),
        decimal(s.port as nat),
        shown_url(s),
    ]
}

/// The texts of a table.
pub open spec fn cells(v: Seq<Vec<String>>) -> Seq<Seq<Seq<char>>> {
    Seq::new(v.len(), |i: int| texts(v[i]@))
}

/// The rows of the list.
pub open spec fn list_rows(s: Seq<ServiceView>, statuses: Seq<ServiceStatus>) -> Seq<
    Seq<Seq<char>>,
> {
    Seq::new(s.len(), |i: int| list_row(s[i], statuses[i]))
}

/// The captions of the list.
pub fn list_header() -> (r: Vec<String>)
    ensures
        texts(r@) == list_captions(),
{
    let r = vec![
        "ID".to_owned(),
        "NAME".to_owned(),
        "STATUS".to_owned(),
        "PORT".to_owned(),
        "URL".to_owned(),
    ];
    assert(texts(r@) =~= list_captions());
    r
}

/// The rows of the list, given the state of each service.
pub fn list_table(services: &Vec<Service>, statuses: &Vec<ServiceStatus>) -> (r: Vec<Vec<String>>)
    requires
        statuses@.len() == services@.len(),
    ensures
        cells(r@) == list_rows(service_views(services@), statuses@),
{
    let mut out: Vec<Vec<String>> = Vec::new();
    let mut i: usize = 0;
    while i < services.len()
        invariant
            i <= services@.len(),
            statuses@.len() == services@.len(),
            cells(out@) == list_rows(service_views(services@), statuses@).take(i as int),
        decreases services@.len() - i,
    {
        let s = &services[i];
        let row = vec![
            decimal_text(s.id),
            s.name.clone(),
            statuses[i].as_str().to_owned(),
            decimal_text(s.port as u64),
            url_or_pending(s),
        ];
        assert(texts(row@) =~= list_row(s@, statuses@[i as int]));
        let ghost before = out@;
        out.push(row);
        assert(cells(out@) =~= cells(before).push(texts(row@)));
        assert(list_rows(service_views(services@), statuses@).take(i + 1) =~= list_rows(
            service_views(services@),
            statuses@,
        ).take(i as int).push(list_row(s@, statuses@[i as int])));
        i = i + 1;
    }
    assert(list_rows(service_views(services@), statuses@).take(services@.len() as int)
        =~= list_rows(service_views(services@), statuses@));
    out
}

/// How comfy-table draws a table with a header, in its full UTF-8 preset with round
/// corners, within a width where there is one.
pub uninterp spec fn drawn_table(
    header: Seq<Seq<char>>,
    rows: Seq<Seq<Seq<char>>>,
    width: Option<u16>,
) -> Seq<char>;

/// A table with a header, drawn by comfy-table: the `Display` of a `Table` with its
/// header, its rows and its width. The terminal is left out of account
/// (`Table::force_no_tty`), so that the text depends on these alone.
#[verifier::external_body]
fn table_text(header: Vec<String>, rows: Vec<Vec<String>>, width: Option<u16>) -> (r: String)
    ensures
        r@ == drawn_table(texts(header@), cells(rows@), width),
{
    let mut table = comfy_table::Table::new();
    table
        .load_preset(comfy_table::presets::UTF8_FULL)
        .apply_modifier(comfy_table::modifiers::UTF8_ROUND_CORNERS)
        .set_content_arrangement(comfy_table::ContentArrangement::Dynamic)
        .force_no_tty()
        .set_header(header)
        .add_rows(rows);
    match width {
        Some(w) => table.set_width(w).to_string(),
        None => table.to_string(),
    }
}

/// The list of the services: a table, or a line that says that there are none.
pub open spec fn listed(
    s: Seq<ServiceView>,
    statuses: Seq<ServiceStatus>,
    width: Option<u16>,
) -> Seq<char> {
    if s.len() == 0 {
        "(no services)"@
    } else {
        drawn_table(list_captions(), list_rows(s, statuses), width)
    }
}

/// The list of the services, given the state of each and the width of the terminal,
/// where there is one: a table, or a line that says that there are none.
pub fn print_list(
    services: &Vec<Service>,
    statuses: &Vec<ServiceStatus>,
    width: Option<u16>,
) -> (r: String)
    requires
        statuses@.len() == services@.len(),
    ensures
        r@ == listed(service_views(services@), statuses@, width),
{
    if services.len() == 0 {
        return "(no services)".to_owned();
    }
    table_text(list_header(), list_table(services, statuses), width)
}

// ---------------------------------------------------------------------------
// One service in detail
// ---------------------------------------------------------------------------

/// A pid, or what stands for none.
pub open spec fn shown_pid(pid: Option<u32>) -> Seq<char> {
    match pid {
        Some(p) => decimal(p as nat),
        None => "-"@,
    }
}

/// A pid, or what stands for none.
pub fn pid_or_dash(pid: Option<u32>) -> (r: String)
    ensures
        r@ == shown_pid(pid),
{
    match pid {
        Some(p) => decimal_text(p as u64),
        None => "-".to_owned(),
    }
}

/// A text, or what stands for none.
pub open spec fn or_dash(o: Option<Seq<char>>) -> Seq<char> {
    match o {
        Some(s) => s,
        None => "-"@,
    }
}

/// The directory of a service, or what stands for none.
pub fn dir_or_dash(service: &Service) -> (r: String)
    ensures
        r@ == or_dash(service@.dir),
{
    match &service.dir {
        Some(d) => d.clone(),
        None => "-".to_owned(),
    }
}

/// `on` or `off`.
pub open spec fn on_off(b: bool) -> Seq<char> {
    if b {
        "on"@
    } else {
        "off"@
    }
}

/// `on` or `off`.
fn on_off_text(b: bool) -> (r: &'static str)
    ensures
        r@ == on_off(b),
{
    if b {
        "on"
    } else {
        "off"
    }
}

/// What is shown of the origin of a service: it depends on the kind.
pub open spec fn origin_lines(s: ServiceView) -> Seq<Seq<char>> {
    match s.kind {
        ServiceKind::Proxy => seq!["Mode:         proxy"@, "Upstream:     "@ + s.local_url],
        ServiceKind::Run => seq!["Mode:         run"@],
        ServiceKind::Hook => seq!["Mode:         hook"@],
        ServiceKind::Drop => seq!["Mode:         drop"@, "Directory:    "@ + or_dash(s.dir)],
        ServiceKind::Static => {
            let lines = seq![
                if s.foreground {
                    "Mode:         foreground"@
                } else {
                    "Mode:         background"@
                },
                "Directory:    "@ + or_dash(s.dir),
                "SPA:          "@ + on_off(s.static_flags.spa),
                "CORS:         "@ + on_off(s.static_flags.cors),
            ];
            match s.static_flags.token {
                Some(t) => lines.push("Token:        "@ + t),
                None => lines,
            }
        },
    }
}

/// What is shown of a service in detail. `started` is when it was started, and
/// `token` what its token file holds, where it can be read; `sep` separates paths.
pub open spec fn detail_lines(
    s: ServiceView,
    status: ServiceStatus,
    started: Seq<char>,
    token: Option<Seq<char>>,
    sep: u8,
) -> Seq<Seq<char>> {
    let head = seq![
        "Name:         "@ + s.name,
        "ID:           "@ + decimal(s.id as nat),
        "Status:       "@ + status.word(),
    ];
    let facts = seq![
        "Port:         "@ + decimal(s.port as nat),
        "Worker PID:   "@ + decimal(s.worker_pid as nat),
        "Tunnel PID:   "@ + shown_pid(s.tunnel_pid),
        "Command PID:  "@ + shown_pid(s.command_pid),
        "Started:      "@ + started,
        "Local URL:    "@ + s.local_url,
        "Public URL:   "@ + shown_url(s),
    ];
    let secret = if s.kind is Drop {
        seq!["Token:        "@ + or_dash(token)]
    } else {
        Seq::empty()
    };
    let worker = seq![
        Seq::empty(),
        "Logs:"@,
        "  "@ + joined(s.state_dir, "worker.log"@, sep),
    ];
    let own = match s.kind {
        ServiceKind::Static => seq!["  "@ + joined(s.state_dir, "server.log"@, sep)],
        ServiceKind::Hook => seq!["  "@ + joined(s.state_dir, "requests.json"@, sep)],
        _ => Seq::empty(),
    };
    head + origin_lines(s) + facts + secret + worker + own + seq![
        "  "@ + joined(s.state_dir, "tunnel.log"@, sep),
    ]
}

/// Add what is shown of the origin of a service.
fn push_origin(lines: &mut Vec<String>, service: &Service)
    ensures
        texts(final(lines)@) == texts(old(lines)@) + origin_lines(service@),
{
    let ghost before = texts(lines@);
    match service.kind {
        ServiceKind::Proxy => {
            push_line(lines, "Mode:         proxy".to_owned());
            push_field(lines, "Upstream:     ", service.local_url.as_str());
        },
        ServiceKind::Run => {
            push_line(lines, "Mode:         run".to_owned());
        },
        ServiceKind::Hook => {
            push_line(lines, "Mode:         hook".to_owned());
        },
        ServiceKind::Drop => {
            push_line(lines, "Mode:         drop".to_owned());
            push_field(lines, "Directory:    ", dir_or_dash(service).as_str());
        },
        ServiceKind::Static => {
            push_line(
                lines,
                if service.foreground {
                    "Mode:         foreground".to_owned()
                } else {
                    "Mode:         background".to_owned()
                },
            );
            push_field(lines, "Directory:    ", dir_or_dash(service).as_str());
            push_field(lines, "SPA:          ", on_off_text(service.static_flags.spa));
            push_field(lines, "CORS:         ", on_off_text(service.static_flags.cors));
            if let Some(t) = &service.static_flags.token {
                push_field(lines, "Token:        ", t.as_str());
            }
        },
    }
    assert(texts(lines@) =~= before + origin_lines(service@));
}

/// What is shown of a service in detail, given when it was started and what its
/// token file holds.
pub fn render_detail(
    service: &Service,
    status: ServiceStatus,
    started: &str,
    token: Option<&str>,
    sep: u8,
) -> (r: Vec<String>)
    ensures
        texts(r@) == detail_lines(service@, status, started@, opt_str(token), sep),
{
    let mut r: Vec<String> = Vec::new();
    push_field(&mut r, "Name:         ", service.name.as_str());
    push_field(&mut r, "ID:           ", decimal_text(service.id).as_str());
    push_field(&mut r, "Status:       ", status.as_str());
    push_origin(&mut r, service);
    push_field(&mut r, "Port:         ", decimal_text(service.port as u64).as_str());
    push_field(&mut r, "Worker PID:   ", decimal_text(service.worker_pid as u64).as_str());
    push_field(&mut r, "Tunnel PID:   ", pid_or_dash(service.tunnel_pid).as_str());
    push_field(&mut r, "Command PID:  ", pid_or_dash(service.command_pid).as_str());
    push_field(&mut r, "Started:      ", started);
    push_field(&mut r, "Local URL:    ", service.local_url.as_str());
    push_field(&mut r, "Public URL:   ", url_or_pending(service).as_str());
    if service.kind == ServiceKind::Drop {
        push_field(
            &mut r,
            "Token:        ",
            match token {
                Some(t) => t,
                None => "-",
            },
        );
    }
    let empty = String::new();
    assert(empty@ =~= Seq::<char>::empty());
    push_line(&mut r, empty);
    push_line(&mut r, "Logs:".to_owned());
    let dir = service.state_dir.as_str();
    push_field(&mut r, "  ", join(dir, "worker.log", sep).as_str());
    if service.kind == ServiceKind::Static {
        push_field(&mut r, "  ", join(dir, "server.log", sep).as_str());
    }
    if service.kind == ServiceKind::Hook {
        push_field(&mut r, "  ", join(dir, "requests.json", sep).as_str());
    }
    push_field(&mut r, "  ", join(dir, "tunnel.log", sep).as_str());
    assert(texts(r@) =~= detail_lines(service@, status, started@, opt_str(token), sep));
    r
}

/// When a service was started, where the calendar reaches it.
pub fn fmt_started(service: &Service) -> (r: Option<String>)
    ensures
        opt_text(r) == started_text(service.created_at),
{
    fmt_timestamp(service.created_at)
}

/// What is shown of a service in detail; nothing where the calendar does not reach
/// the instant at which it was started.
pub fn print_detail(
    service: &Service,
    status: ServiceStatus,
    token: Option<&str>,
    sep: u8,
) -> (r: Option<Vec<String>>)
    ensures
        match r {
            Some(l) => started_text(service.created_at) matches Some(t) && texts(l@)
                == detail_lines(service@, status, t, opt_str(token), sep),
            None => started_text(service.created_at) is None,
        },
{
    match fmt_started(service) {
        Some(t) => Some(render_detail(service, status, t.as_str(), token, sep)),
        None => None,
    }
}

// ---------------------------------------------------------------------------
// Services that were stopped
// ---------------------------------------------------------------------------

/// What is told of a service that was stopped.
pub open spec fn stopped_words(name: Seq<char>) -> Seq<char> {
    "Stopped "@ + name + "."@
}

/// What is told of a service that was dead already.
pub open spec fn removed_words(name: Seq<char>) -> Seq<char> {
    "Removed stale service "@ + name + "."@
}

/// What is told of a service that was stopped.
pub fn print_stopped(name: &str) -> (r: String)
    ensures
        r@ == stopped_words(name@),
{
    concat3("Stopped ", name, ".")
}

/// What is told of a service that was dead already.
pub fn print_removed_stale(name: &str) -> (r: String)
    ensures
        r@ == removed_words(name@),
{
    concat3("Removed stale service ", name, ".")
}

// ---------------------------------------------------------------------------
// The report of the doctor
// ---------------------------------------------------------------------------

/// The word in front of a check's line, as wide as the widest.
pub open spec fn wide_word(status: CheckStatus) -> Seq<char> {
    match status {
        CheckStatus::Pass | CheckStatus::Note => "ok  "@,
        CheckStatus::Warn => "warn"@,
        CheckStatus::Fail => "fail"@,
    }
}

/// The lines of one check: what came out, and for a problem what to do. The name and
/// the hint start in the same column.
pub open spec fn check_lines(c: CheckView) -> Seq<Seq<char>> {
    let line = wide_word(c.status) + "  "@ + c.name + ": "@ + c.detail;
    match c.hint {
        Some(h) if c.status.problem() => seq![line, "      hint: "@ + h],
        _ => seq![line],
    }
}

/// The lines of the first `n` checks.
pub open spec fn checks_lines(c: Seq<CheckView>, n: nat) -> Seq<Seq<char>>
    decreases n,
{
    if n == 0 {
        Seq::empty()
    } else {
        checks_lines(c, (n - 1) as nat) + check_lines(c[n - 1])
    }
}

/// How many of the first `n` checks found a problem.
pub open spec fn problems(c: Seq<CheckView>, n: nat) -> nat
    decreases n,
{
    if n == 0 {
        0
    } else if c[n - 1].status.problem() {
        problems(c, (n - 1) as nat) + 1
    } else {
        problems(c, (n - 1) as nat)
    }
}

/// How many of the first `n` checks left a note.
pub open spec fn notes(c: Seq<CheckView>, n: nat) -> nat
    decreases n,
{
    if n == 0 {
        0
    } else if c[n - 1].status is Note {
        notes(c, (n - 1) as nat) + 1
    } else {
        notes(c, (n - 1) as nat)
    }
}

/// The last line of the report.
pub open spec fn doctor_summary(problems: nat, notes: nat) -> Seq<char> {
    if problems == 0 && notes == 0 {
        "all checks passed"@
    } else {
        decimal(problems) + " problem(s), "@ + decimal(notes) + " note(s)"@
    }
}

/// The report of the doctor.
pub open spec fn doctor_lines(c: Seq<CheckView>) -> Seq<Seq<char>> {
    checks_lines(c, c.len()).push(Seq::empty()).push(
        doctor_summary(problems(c, c.len()), notes(c, c.len())),
    )
}

/// The word in front of a check's line, as wide as the widest.
fn wide_word_text(status: CheckStatus) -> (r: &'static str)
    ensures
        r@ == wide_word(status),
{
    match status {
        CheckStatus::Pass | CheckStatus::Note => "ok  ",
        CheckStatus::Warn => "warn",
        CheckStatus::Fail => "fail",
    }
}

/// Add the lines of one check.
fn push_check(lines: &mut Vec<String>, check: &Check)
    ensures
        texts(final(lines)@) == texts(old(lines)@) + check_lines(check@),
{
    let ghost before = texts(lines@);
    push_line(
        lines,
        concat5(
            wide_word_text(check.status),
            "  ",
            check.name.as_str(),
            ": ",
            check.detail.as_str(),
        ),
    );
    if check.status.is_problem() {
        if let Some(h) = &check.hint {
            push_field(lines, "      hint: ", h.as_str());
        }
    }
    assert(texts(lines@) =~= before + check_lines(check@));
}

/// The report of the doctor: a line for each check, with a hint under a problem,
/// and how many problems and notes there were.
pub fn print_doctor(checks: &Vec<Check>) -> (r: Vec<String>)
    ensures
        texts(r@) == doctor_lines(check_views(checks@)),
{
    let mut r: Vec<String> = Vec::new();
    assert(texts(r@) =~= Seq::<Seq<char>>::empty());
    let mut found: u64 = 0;
    let mut noted: u64 = 0;
    let mut i: usize = 0;
    while i < checks.len()
        invariant
            i <= checks@.len(),
            found <= i,
            noted <= i,
            texts(r@) == checks_lines(check_views(checks@), i as nat),
            found == problems(check_views(checks@), i as nat),
            noted == notes(check_views(checks@), i as nat),
        decreases checks@.len() - i,
    {
        let check = &checks[i];
        assert(check_views(checks@)[i as int] == check@);
        push_check(&mut r, check);
        if check.status.is_problem() {
            found = found + 1;
        }
        if check.status == CheckStatus::Note {
            noted = noted + 1;
        }
        i = i + 1;
    }
    let empty = String::new();
    assert(empty@ =~= Seq::<char>::empty());
    push_line(&mut r, empty);
    if found == 0 && noted == 0 {
        push_line(&mut r, "all checks passed".to_owned());
    } else {
        push_line(
            &mut r,
            concat4(
                decimal_text(found).as_str(),
                " problem(s), ",
                decimal_text(noted).as_str(),
                " note(s)",
            ),
        );
    }
    r
}

// ---------------------------------------------------------------------------
// The report of a clean-up
// ---------------------------------------------------------------------------

/// A service that was removed, and why.
#[derive(Debug)]
pub struct Removal {
    pub name: String,
    pub reason: String,
}

/// The lines for the first `n` removals.
pub open spec fn removal_lines(removed: Seq<Removal>, n: nat) -> Seq<Seq<char>>
    decreases n,
{
    if n == 0 {
        Seq::empty()
    } else {
        removal_lines(removed, (n - 1) as nat).push(
            "  - "@ + removed[n - 1].name@ + " ("@ + removed[n - 1].reason@ + ")"@,
        )
    }
}

/// The lines for the first `n` names.
pub open spec fn name_lines(names: Seq<String>, n: nat) -> Seq<Seq<char>>
    decreases n,
{
    if n == 0 {
        Seq::empty()
    } else {
        name_lines(names, (n - 1) as nat).push("  - "@ + names[n - 1]@)
    }
}

/// The report of a clean-up.
pub open spec fn sanitized_lines(removed: Seq<Removal>, skipped: Seq<String>) -> Seq<Seq<char>> {
    let cleaned = if removed.len() == 0 {
        seq!["Nothing to clean."@]
    } else {
        seq!["Sanitized "@ + decimal(removed.len()) + " service(s):"@] + removal_lines(
            removed,
            removed.len(),
        )
    };
    let left = if skipped.len() == 0 {
        Seq::empty()
    } else {
        seq![
            "Left "@ + decimal(skipped.len())
                + " foreground service(s) alone (stop it with Ctrl-C in its terminal):"@,
        ] + name_lines(skipped, skipped.len())
    };
    cleaned + left
}

/// The report of a clean-up: what was removed and why, and which foreground
/// services were left to the operator.
pub fn print_sanitized(removed: &Vec<Removal>, skipped: &Vec<String>) -> (r: Vec<String>)
    ensures
        texts(r@) == sanitized_lines(removed@, skipped@),
{
    let mut r: Vec<String> = Vec::new();
    if removed.len() == 0 {
        push_line(&mut r, "Nothing to clean.".to_owned());
        assert(texts(r@) =~= seq!["Nothing to clean."@]);
    } else {
        push_line(
            &mut r,
            concat3("Sanitized ", decimal_text(removed.len() as u64).as_str(), " service(s):"),
        );
        let ghost head = seq!["Sanitized "@ + decimal(removed@.len()) + " service(s):"@];
        assert(texts(r@) =~= head + removal_lines(removed@, 0));
        let mut i: usize = 0;
        while i < removed.len()
            invariant
                i <= removed@.len(),
                texts(r@) == head + removal_lines(removed@, i as nat),
            decreases removed@.len() - i,
        {
            push_line(
                &mut r,
                concat5(
                    "  - ",
                    removed[i].name.as_str(),
                    " (",
                    removed[i].reason.as_str(),
                    ")",
                ),
            );
            i = i + 1;
            assert(texts(r@) =~= head + removal_lines(removed@, i as nat));
        }
    }
    let ghost cleaned = texts(r@);
    if skipped.len() > 0 {
        push_line(
            &mut r,
            concat3(
                "Left ",
                decimal_text(skipped.len() as u64).as_str(),
                " foreground service(s) alone (stop it with Ctrl-C in its terminal):",
            ),
        );
        let ghost head = cleaned + seq![
            "Left "@ + decimal(skipped@.len())
                + " foreground service(s) alone (stop it with Ctrl-C in its terminal):"@,
        ];
        assert(texts(r@) =~= head + name_lines(skipped@, 0));
        let mut i: usize = 0;
        while i < skipped.len()
            invariant
                i <= skipped@.len(),
                texts(r@) == head + name_lines(skipped@, i as nat),
            decreases skipped@.len() - i,
        {
            push_field(&mut r, "  - ", skipped[i].as_str());
            i = i + 1;
            assert(texts(r@) =~= head + name_lines(skipped@, i as nat));
        }
    }
    assert(texts(r@) =~= sanitized_lines(removed@, skipped@));
    r
}

// ---------------------------------------------------------------------------
// Laws
// ---------------------------------------------------------------------------

/// A report says that all checks passed exactly where none found a problem and none
/// left a note.
pub proof fn law_passed_means_no_problem(c: Seq<CheckView>, n: nat)
    requires
        n <= c.len(),
    ensures
        problems(c, n) == 0 <==> forall|i: int| 0 <= i < n ==> !(#[trigger] c[i]).status.problem(),
        notes(c, n) == 0 <==> forall|i: int| 0 <= i < n ==> !((#[trigger] c[i]).status is Note),
    decreases n,
{
    if n > 0 {
        law_passed_means_no_problem(c, (n - 1) as nat);
    }
}

/// The list has one row for each service, in the order of the registry, and each row
/// tells of its own service: its id, its name, its state, its port and its URL, or that
/// this is still to come. Each stands under the caption that says so.
pub proof fn law_every_service_has_its_row(
    s: Seq<ServiceView>,
    statuses: Seq<ServiceStatus>,
    i: int,
)
    requires
        statuses.len() == s.len(),
        0 <= i < s.len(),
    ensures
        list_rows(s, statuses).len() == s.len(),
        ({
            let row = list_rows(s, statuses)[i];
            &&& row.len() == 5 && list_captions().len() == 5
            &&& list_captions()[0] == "ID"@ && row[0] == decimal(s[i].id as nat)
            &&& list_captions()[1] == "NAME"@ && row[1] == s[i].name
            &&& list_captions()[2] == "STATUS"@ && row[2] == statuses[i].word()
            &&& list_captions()[3] == "PORT"@ && row[3] == decimal(s[i].port as nat)
            &&& list_captions()[4] == "URL"@ && match s[i].public_url {
                Some(u) => row[4] == u,
                None => row[4] == "(pending)"@,
            }
        }),
{
}

/// What changes about one service changes its own row and no other.
pub proof fn law_a_row_depends_on_its_service_alone(
    s: Seq<ServiceView>,
    statuses: Seq<ServiceStatus>,
    i: int,
    e: ServiceView,
    status: ServiceStatus,
)
    requires
        statuses.len() == s.len(),
        0 <= i < s.len(),
    ensures
        list_rows(s.update(i, e), statuses.update(i, status)) == list_rows(s, statuses).update(
            i,
            list_rows(seq![e], seq![status])[0],
        ),
        status != statuses[i] ==> list_rows(s, statuses.update(i, status))[i] != list_rows(
            s,
            statuses,
        )[i],
{
    assert(list_rows(s.update(i, e), statuses.update(i, status)) =~= list_rows(s, statuses).update(
        i,
        list_rows(seq![e], seq![status])[0],
    ));
    if status != statuses[i] {
        let a = list_rows(s, statuses.update(i, status))[i];
        let b = list_rows(s, statuses)[i];
        crate::model::law_words_tell_states_and_kinds_apart(
            status,
            statuses[i],
            ServiceKind::Static,
            ServiceKind::Static,
        );
        assert(a[2] == status.word() && b[2] == statuses[i].word());
    }
}

/// Who has started a service is told its name, its id, where it is served and where it
/// can be reached, and where its logs are.
pub proof fn law_started_service_is_told_whole(s: ServiceView)
    ensures
        started_lines(s).len() == 6,
        started_lines(s)[0] == "Started "@ + s.name,
        started_lines(s)[2] == "ID:      "@ + decimal(s.id as nat),
        started_lines(s)[3] == "Local:   "@ + s.local_url,
        s.public_url matches Some(u) ==> started_lines(s)[4] == "Public:  "@ + u,
        s.public_url is None ==> started_lines(s)[4] == "Public:  (pending)"@,
        started_lines(s)[5] == "Logs:    "@ + s.state_dir + "/"@,
{
    reveal_strlit("Public:  ");
    reveal_strlit("(pending)");
    reveal_strlit("Public:  (pending)");
    if s.public_url is None {
        assert("Public:  "@ + "(pending)"@ =~= "Public:  (pending)"@);
    }
}

/// The token is shown, and the example uploads with that very token to the origin that
/// was given.
pub proof fn law_token_is_shown_and_used(token: Seq<char>, origin: Seq<char>)
    ensures
        token_lines(token, origin).contains("Token:   "@ + token),
        token_lines(token, origin).contains(
            "  curl -H \"Authorization: Bearer "@ + token + "\" --data-binary @file.txt "@ + origin
                + "/file.txt"@,
        ),
{
    assert(token_lines(token, origin)[1] == "Token:   "@ + token);
    assert(token_lines(token, origin)[4] == "  curl -H \"Authorization: Bearer "@ + token
        + "\" --data-binary @file.txt "@ + origin + "/file.txt"@);
}

/// The detail of a service shows each of its facts behind the caption that says what it
/// is: who it is and how it stands, what it is made of, what is behind it, where it can
/// be reached and where its logs are.
pub proof fn law_detail_shows_every_fact(
    s: ServiceView,
    status: ServiceStatus,
    started: Seq<char>,
    token: Option<Seq<char>>,
    sep: u8,
)
    ensures
        ({
            let l = detail_lines(s, status, started, token, sep);
            let n = origin_lines(s).len() as int;
            &&& l[0] == "Name:         "@ + s.name
            &&& l[1] == "ID:           "@ + decimal(s.id as nat)
            &&& l[2] == "Status:       "@ + status.word()
            &&& l.subrange(3, 3 + n) == origin_lines(s)
            &&& l[3 + n] == "Port:         "@ + decimal(s.port as nat)
            &&& l[4 + n] == "Worker PID:   "@ + decimal(s.worker_pid as nat)
            &&& l[5 + n] == "Tunnel PID:   "@ + (match s.tunnel_pid {
                Some(p) => decimal(p as nat),
                None => "-"@,
            })
            &&& l[6 + n] == "Command PID:  "@ + (match s.command_pid {
                Some(p) => decimal(p as nat),
                None => "-"@,
            })
            &&& l[7 + n] == "Started:      "@ + started
            &&& l[8 + n] == "Local URL:    "@ + s.local_url
            &&& l[9 + n] == "Public URL:   "@ + (match s.public_url {
                Some(u) => u,
                None => "(pending)"@,
            })
        }),
{
    let l = detail_lines(s, status, started, token, sep);
    let n = origin_lines(s).len() as int;
    assert(l.subrange(3, 3 + n) =~= origin_lines(s));
}

/// Which logs are named depends on the kind: every service has that of its worker and
/// that of its tunnel; a directory has that of its server and a webhook receiver its
/// records. The token of an upload receiver is shown, and for no other kind is what a
/// token file holds.
pub proof fn law_detail_names_the_logs_of_the_kind(
    s: ServiceView,
    status: ServiceStatus,
    started: Seq<char>,
    token: Option<Seq<char>>,
    other: Option<Seq<char>>,
    sep: u8,
)
    ensures
        ({
            let l = detail_lines(s, status, started, token, sep);
            let n = origin_lines(s).len() as int + 10;
            let logs = |name: Seq<char>| "  "@ + joined(s.state_dir, name, sep);
            &&& s.kind == ServiceKind::Drop ==> l[n] == "Token:        "@ + (match token {
                Some(t) => t,
                None => "-"@,
            }) && l.skip(n + 1) == seq![
                Seq::empty(),
                "Logs:"@,
                logs("worker.log"@),
                logs("tunnel.log"@),
            ]
            &&& s.kind == ServiceKind::Static ==> l.skip(n) == seq![
                Seq::empty(),
                "Logs:"@,
                logs("worker.log"@),
                logs("server.log"@),
                logs("tunnel.log"@),
            ]
            &&& s.kind == ServiceKind::Hook ==> l.skip(n) == seq![
                Seq::empty(),
                "Logs:"@,
                logs("worker.log"@),
                logs("requests.json"@),
                logs("tunnel.log"@),
            ]
            &&& s.kind == ServiceKind::Proxy || s.kind == ServiceKind::Run ==> l.skip(n) == seq![
                Seq::empty(),
                "Logs:"@,
                logs("worker.log"@),
                logs("tunnel.log"@),
            ]
            &&& s.kind != ServiceKind::Drop ==> l == detail_lines(s, status, started, other, sep)
        }),
{
    let l = detail_lines(s, status, started, token, sep);
    let n = origin_lines(s).len() as int + 10;
    let logs = |name: Seq<char>| "  "@ + joined(s.state_dir, name, sep);
    match s.kind {
        ServiceKind::Drop => {
            assert(l.skip(n + 1) =~= seq![
                Seq::empty(),
                "Logs:"@,
                logs("worker.log"@),
                logs("tunnel.log"@),
            ]);
        },
        ServiceKind::Static => {
            assert(l.skip(n) =~= seq![
                Seq::empty(),
                "Logs:"@,
                logs("worker.log"@),
                logs("server.log"@),
                logs("tunnel.log"@),
            ]);
        },
        ServiceKind::Hook => {
            assert(l.skip(n) =~= seq![
                Seq::empty(),
                "Logs:"@,
                logs("worker.log"@),
                logs("requests.json"@),
                logs("tunnel.log"@),
            ]);
        },
        _ => {
            assert(l.skip(n) =~= seq![
                Seq::empty(),
                "Logs:"@,
                logs("worker.log"@),
                logs("tunnel.log"@),
            ]);
        },
    }
}

/// What is shown of an origin says which kind it is and how it was asked to serve: a
/// directory its mode, its path and its flags, with the token where there is one; a
/// proxy its upstream; an upload receiver its directory.
pub proof fn law_origin_is_shown_by_its_kind(s: ServiceView)
    ensures
        ({
            let l = origin_lines(s);
            let dir = match s.dir {
                Some(d) => d,
                None => "-"@,
            };
            &&& s.kind == ServiceKind::Proxy ==> l == seq![
                "Mode:         proxy"@,
                "Upstream:     "@ + s.local_url,
            ]
            &&& s.kind == ServiceKind::Run ==> l == seq!["Mode:         run"@]
            &&& s.kind == ServiceKind::Hook ==> l == seq!["Mode:         hook"@]
            &&& s.kind == ServiceKind::Drop ==> l == seq![
                "Mode:         drop"@,
                "Directory:    "@ + dir,
            ]
            &&& s.kind == ServiceKind::Static ==> {
                &&& l.len() >= 4
                &&& s.foreground ==> l[0] == "Mode:         foreground"@
                &&& !s.foreground ==> l[0] == "Mode:         background"@
                &&& l[1] == "Directory:    "@ + dir
                &&& s.static_flags.spa ==> l[2] == "SPA:          on"@
                &&& !s.static_flags.spa ==> l[2] == "SPA:          off"@
                &&& s.static_flags.cors ==> l[3] == "CORS:         on"@
                &&& !s.static_flags.cors ==> l[3] == "CORS:         off"@
                &&& s.static_flags.token is None ==> l.len() == 4
                &&& s.static_flags.token matches Some(t) ==> l.len() == 5 && l[4]
                    == "Token:        "@ + t
            }
        }),
{
    reveal_strlit("on");
    reveal_strlit("off");
    reveal_strlit("SPA:          ");
    reveal_strlit("CORS:         ");
    reveal_strlit("SPA:          on");
    reveal_strlit("SPA:          off");
    reveal_strlit("CORS:         on");
    reveal_strlit("CORS:         off");
    assert("SPA:          "@ + "on"@ =~= "SPA:          on"@);
    assert("SPA:          "@ + "off"@ =~= "SPA:          off"@);
    assert("CORS:         "@ + "on"@ =~= "CORS:         on"@);
    assert("CORS:         "@ + "off"@ =~= "CORS:         off"@);
}

/// A check is one line, with how it came out, its name and what was found; where that is
/// a problem, and something can be done about it, a second line says what.
pub proof fn law_check_is_told_with_its_hint(c: CheckView)
    ensures
        check_lines(c)[0] == (match c.status {
            CheckStatus::Pass => "ok    "@,
            CheckStatus::Note => "ok    "@,
            CheckStatus::Warn => "warn  "@,
            CheckStatus::Fail => "fail  "@,
        }) + c.name + ": "@ + c.detail,
        (c.status == CheckStatus::Warn || c.status == CheckStatus::Fail) && c.hint is Some
            ==> check_lines(c).len() == 2 && check_lines(c)[1] == "      hint: "@ + c.hint->0,
        !((c.status == CheckStatus::Warn || c.status == CheckStatus::Fail) && c.hint is Some)
            ==> check_lines(c).len() == 1,
{
    reveal_strlit("ok  ");
    reveal_strlit("warn");
    reveal_strlit("fail");
    reveal_strlit("  ");
    reveal_strlit("ok    ");
    reveal_strlit("warn  ");
    reveal_strlit("fail  ");
    assert("ok  "@ + "  "@ =~= "ok    "@);
    assert("warn"@ + "  "@ =~= "warn  "@);
    assert("fail"@ + "  "@ =~= "fail  "@);
}

/// The lines of the first checks stand one behind the other.
proof fn lemma_checks_lines(c: Seq<CheckView>, n: nat)
    requires
        n <= c.len(),
    ensures
        checks_lines(c, n) == Seq::new(n, |i: int| check_lines(c[i])).flatten(),
        problems(c, n) == c.take(n as int).filter(
            |x: CheckView| x.status == CheckStatus::Warn || x.status == CheckStatus::Fail,
        ).len(),
        notes(c, n) == c.take(n as int).filter(|x: CheckView| x.status == CheckStatus::Note).len(),
    decreases n,
{
    reveal(Seq::filter);
    let all = Seq::new(n, |i: int| check_lines(c[i]));
    if n > 0 {
        lemma_checks_lines(c, (n - 1) as nat);
        let before = Seq::new((n - 1) as nat, |i: int| check_lines(c[i]));
        assert(all =~= before.push(all[n - 1]));
        before.lemma_flatten_push(all[n - 1]);
        assert(c.take(n as int).drop_last() =~= c.take(n - 1));
    } else {
        assert(all =~= Seq::<Seq<Seq<char>>>::empty());
    }
}

/// The report has the lines of every check, in their order, and ends with how many
/// problems and how many notes there were, counted one by one; or that there were none.
pub proof fn law_report_has_every_check_and_counts_them(c: Seq<CheckView>)
    ensures
        ({
            let bad = c.filter(
                |x: CheckView| x.status == CheckStatus::Warn || x.status == CheckStatus::Fail,
            ).len();
            let noted = c.filter(|x: CheckView| x.status == CheckStatus::Note).len();
            doctor_lines(c) == Seq::new(c.len(), |i: int| check_lines(c[i])).flatten() + seq![
                Seq::empty(),
                if bad == 0 && noted == 0 {
                    "all checks passed"@
                } else {
                    decimal(bad) + " problem(s), "@ + decimal(noted) + " note(s)"@
                },
            ]
        }),
{
    lemma_checks_lines(c, c.len());
    assert(c.take(c.len() as int) =~= c);
    let bad = problems(c, c.len());
    let noted = notes(c, c.len());
    assert(doctor_lines(c) =~= Seq::new(c.len(), |i: int| check_lines(c[i])).flatten() + seq![
        Seq::empty(),
        doctor_summary(bad, noted),
    ]);
}

/// The lines of the first removals, and those of the first names.
proof fn lemma_bullets(removed: Seq<Removal>, skipped: Seq<String>, m: nat, n: nat)
    requires
        m <= removed.len(),
        n <= skipped.len(),
    ensures
        removal_lines(removed, m) == Seq::new(
            m,
            |i: int| "  - "@ + removed[i].name@ + " ("@ + removed[i].reason@ + ")"@,
        ),
        name_lines(skipped, n) == Seq::new(n, |i: int| "  - "@ + skipped[i]@),
    decreases m + n,
{
    if m > 0 {
        lemma_bullets(removed, skipped, (m - 1) as nat, n);
    } else if n > 0 {
        lemma_bullets(removed, skipped, m, (n - 1) as nat);
    }
    assert(removal_lines(removed, m) =~= Seq::new(
        m,
        |i: int| "  - "@ + removed[i].name@ + " ("@ + removed[i].reason@ + ")"@,
    ));
    assert(name_lines(skipped, n) =~= Seq::new(n, |i: int| "  - "@ + skipped[i]@));
}

/// The report of a clean-up names each service that was removed with its own reason, and
/// each that was left alone, in their order, and says how many there were of each.
pub proof fn law_clean_up_is_told_one_by_one(removed: Seq<Removal>, skipped: Seq<String>)
    ensures
        ({
            let gone = Seq::new(
                removed.len(),
                |i: int| "  - "@ + removed[i].name@ + " ("@ + removed[i].reason@ + ")"@,
            );
            let kept = Seq::new(skipped.len(), |i: int| "  - "@ + skipped[i]@);
            let first = if removed.len() == 0 {
                "Nothing to clean."@
            } else {
                "Sanitized "@ + decimal(removed.len()) + " service(s):"@
            };
            let left = "Left "@ + decimal(skipped.len())
                + " foreground service(s) alone (stop it with Ctrl-C in its terminal):"@;
            sanitized_lines(removed, skipped) == if skipped.len() == 0 {
                seq![first] + gone
            } else {
                seq![first] + gone + (seq![left] + kept)
            }
        }),
{
    lemma_bullets(removed, skipped, removed.len(), skipped.len());
    let gone = Seq::new(
        removed.len(),
        |i: int| "  - "@ + removed[i].name@ + " ("@ + removed[i].reason@ + ")"@,
    );
    let kept = Seq::new(skipped.len(), |i: int| "  - "@ + skipped[i]@);
    let first = if removed.len() == 0 {
        "Nothing to clean."@
    } else {
        "Sanitized "@ + decimal(removed.len()) + " service(s):"@
    };
    let left = "Left "@ + decimal(skipped.len())
        + " foreground service(s) alone (stop it with Ctrl-C in its terminal):"@;
    if skipped.len() == 0 {
        assert(sanitized_lines(removed, skipped) =~= seq![first] + gone);
    } else {
        assert(sanitized_lines(removed, skipped) =~= seq![first] + gone + (seq![left] + kept));
    }
}

/// The view of a table has every cell, in its row and its column.
pub proof fn law_cells_are_viewed_one_by_one(v: Seq<Vec<String>>, i: int, j: int)
    requires
        0 <= i < v.len(),
        0 <= j < v[i]@.len(),
    ensures
        cells(v).len() == v.len(),
        cells(v)[i].len() == v[i]@.len(),
        cells(v)[i][j] == v[i]@[j]@,
{
}

/// Services are drawn as a table as wide as the terminal, with the rows of all of them;
/// where there are none that is said.
pub proof fn law_services_are_drawn_as_a_table(
    s: Seq<ServiceView>,
    statuses: Seq<ServiceStatus>,
    width: Option<u16>,
)
    ensures
        s.len() > 0 ==> listed(s, statuses, width) == drawn_table(
            list_captions(),
            list_rows(s, statuses),
            width,
        ),
        listed(Seq::empty(), Seq::empty(), width) == "(no services)"@,
{
}

/// What is told of a service that is gone names it, and tells whether it was stopped.
pub proof fn law_gone_services_are_named(name: Seq<char>)
    ensures
        occurs_in(stopped_words(name), name),
        occurs_in(removed_words(name), name),
        stopped_words(name) != removed_words(name),
{
    lemma_stands_between("Stopped "@, name, "."@);
    lemma_stands_between("Removed stale service "@, name, "."@);
    reveal_strlit("Stopped ");
    reveal_strlit("Removed stale service ");
    assert(stopped_words(name)[0] == 'S');
    assert(removed_words(name)[0] == 'R');
}

} // verus!
