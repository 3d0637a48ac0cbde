//! The bundled dashboard: a trace browser served by the server itself.
//!
//! One self-contained HTML document. It consumes only the public JSON API, so
//! the page is served before the auth gate while every call it makes stays
//! gated; it asks for a bearer token on the first 401 and keeps it in
//! `sessionStorage` only.

use vstd::prelude::*;

use crate::text::same;

verus! {

/// The dashboard HTML document.
pub const DASHBOARD_HTML: &'static str = r##"<!doctype html>
<html lang="en">
<head>
<meta charset="utf-8">
<meta name="viewport" content="width=device-width, initial-scale=1">
<title>Traza</title>
<style>
:root { color-scheme: light dark; --ink: #1c2430; --muted: #66707d; --line: #d8dde3; --accent: #2f6fde; --bad: #b3261e; }
body { margin: 0; font: 14px/1.5 system-ui, sans-serif; color: var(--ink); background: #fbfcfd; }
header { display: flex; gap: 1rem; align-items: baseline; padding: 1rem 1.5rem; border-bottom: 1px solid var(--line); }
header h1 { font-size: 1.1rem; margin: 0; }
header span { color: var(--muted); }
nav { padding: .5rem 1.5rem; border-bottom: 1px solid var(--line); }
nav button { border: 0; background: none; padding: .4rem .8rem; color: var(--muted); cursor: pointer; }
nav button[aria-selected="true"] { color: var(--accent); border-bottom: 2px solid var(--accent); }
main { padding: 1rem 1.5rem; }
table { border-collapse: collapse; width: 100%; }
th, td { text-align: left; padding: .35rem .6rem; border-bottom: 1px solid var(--line); vertical-align: top; }
td.number, th.number { text-align: right; font-variant-numeric: tabular-nums; }
.error { color: var(--bad); }
form { display: flex; gap: .5rem; margin: 0 0 1rem; flex-wrap: wrap; }
input { padding: .3rem .5rem; border: 1px solid var(--line); border-radius: .3rem; min-width: 12rem; }
pre { white-space: pre-wrap; overflow-wrap: anywhere; background: #f1f4f7; padding: .6rem; }
</style>
</head>
<body>
<header><h1>Traza</h1><span id="summary">loading</span></header>
<nav role="tablist">
<button data-view="sessions" aria-selected="true">Sessions</button>
<button data-view="spans" aria-selected="false">Spans</button>
<button data-view="models" aria-selected="false">Models</button>
<button data-view="server" aria-selected="false">Server</button>
</nav>
<main id="view"></main>
<script>
const token = () => sessionStorage.getItem("traza-token") || "";
async function api(path) {
  const headers = token() ? { Authorization: "Bearer " + token() } : {};
  const response = await fetch(path, { headers });
  if (response.status === 401) {
    const entered = prompt("Bearer token");
    if (entered) { sessionStorage.setItem("traza-token", entered); return api(path); }
  }
  const body = await response.json();
  if (!response.ok) { throw new Error(body.error || response.statusText); }
  return body;
}
const view = document.getElementById("view");
function cell(row, text, number) {
  const td = document.createElement("td");
  td.textContent = text === null || text === undefined ? "" : String(text);
  if (number) { td.className = "number"; }
  row.appendChild(td);
  return td;
}
function table(columns, rows) {
  const element = document.createElement("table");
  const head = element.createTHead().insertRow();
  for (const column of columns) {
    const th = document.createElement("th");
    th.textContent = column.title;
    if (column.number) { th.className = "number"; }
    head.appendChild(th);
  }
  const body = element.createTBody();
  for (const item of rows) {
    const row = body.insertRow();
    for (const column of columns) {
      const td = cell(row, column.value(item), column.number);
      if (column.open) { td.onclick = () => column.open(item); td.style.cursor = "pointer"; }
    }
  }
  return element;
}
function show(node) { view.replaceChildren(node); }
function fail(error) {
  const p = document.createElement("p");
  p.className = "error";
  p.textContent = error.message;
  show(p);
}
async function openTrace(id) {
  const trace = await api("/v1/traces/" + encodeURIComponent(id));
  const pre = document.createElement("pre");
  pre.textContent = JSON.stringify(trace, null, 2);
  show(pre);
}
const views = {
  async sessions() {
    const { sessions } = await api("/v1/sessions?limit=100");
    show(table([
      { title: "Session", value: s => s.session_id },
      { title: "Traces", value: s => s.traces, number: true },
      { title: "Spans", value: s => s.spans, number: true },
      { title: "Errors", value: s => s.errors, number: true },
      { title: "Tokens", value: s => s.total_tokens, number: true },
    ], sessions));
  },
  async spans() {
    const { spans } = await api("/v1/spans?limit=100&sort=-start");
    show(table([
      { title: "Trace", value: s => s.trace_id, open: s => openTrace(s.trace_id).catch(fail) },
      { title: "Name", value: s => s.name },
      { title: "Service", value: s => s.service },
      { title: "Status", value: s => s.status },
      { title: "Duration (ms)", value: s => ((s.end_time_ns - s.start_time_ns) / 1e6).toFixed(2), number: true },
    ], spans));
  },
  async models() {
    const { rows } = await api("/v1/stats/llm?group_by=model");
    show(table([
      { title: "Model", value: r => r.key },
      { title: "Spans", value: r => r.spans, number: true },
      { title: "Input tokens", value: r => r.input_tokens, number: true },
      { title: "Output tokens", value: r => r.output_tokens, number: true },
    ], rows));
  },
  async server() {
    const pre = document.createElement("pre");
    pre.textContent = JSON.stringify(await api("/v1/metrics.json"), null, 2);
    show(pre);
  },
};
for (const button of document.querySelectorAll("nav button")) {
  button.onclick = () => {
    for (const other of document.querySelectorAll("nav button")) {
      other.setAttribute("aria-selected", String(other === button));
    }
    views[button.dataset.view]().catch(fail);
  };
}
api("/v1/stats").then(stats => {
  document.getElementById("summary").textContent =
    stats.total_records + " records, " + stats.segment_count + " segments, durability " + stats.durability;
}).catch(fail);
views.sessions().catch(fail);
</script>
</body>
</html>
"##;

/// A response the server should write verbatim for a dashboard route.
pub struct DashboardResponse {
    /// HTTP status code.
    pub status: u16,
    /// Response headers (name, value), content type among them.
    pub headers: Vec<(&'static str, &'static str)>,
    /// Response body.
    pub body: &'static str,
}

/// Exactly `/`, `/dashboard` and `/dashboard/` serve the page.
pub open spec fn is_dashboard_path(path: Seq<char>) -> bool {
    path == "/"@ || path == "/dashboard"@ || path == "/dashboard/"@
}

/// The headers of the page, as names and values.
pub open spec fn page_headers(headers: Seq<(&'static str, &'static str)>) -> bool {
    &&& headers.len() == 3
    &&& headers[0].0@ == "Content-Type"@ && headers[0].1@ == "text/html; charset=utf-8"@
    &&& headers[1].0@ == "Cache-Control"@ && headers[1].1@ == "no-store"@
    &&& headers[2].0@ == "X-Content-Type-Options"@ && headers[2].1@ == "nosniff"@
}

/// Whether `path` is a dashboard route.
pub fn serves(path: &str) -> (r: bool)
    ensures
        r == is_dashboard_path(path@),
{
    same(path, "/") || same(path, "/dashboard") || same(path, "/dashboard/")
}

/// The dashboard response for `path`, or `None` when the path is not a
/// dashboard route (the caller falls through to the JSON API). Deeper
/// `/dashboard/*` paths are not: unknown assets are answered 404 by the API
/// instead of masquerading as the page.
pub fn route(path: &str) -> (r: Option<DashboardResponse>)
    ensures
        r.is_some() == is_dashboard_path(path@),
        r matches Some(response) ==> {
            &&& response.status == 200
            &&& page_headers(response.headers@)
            &&& response.body@ == DASHBOARD_HTML@
        },
{
    if serves(path) {
        let mut headers: Vec<(&'static str, &'static str)> = Vec::new();
        headers.push(("Content-Type", "text/html; charset=utf-8"));
        headers.push(("Cache-Control", "no-store"));
        headers.push(("X-Content-Type-Options", "nosniff"));
        Some(DashboardResponse { status: 200, headers, body: DASHBOARD_HTML })
    } else {
        None
    }
}

/// The page is served at three paths, and nowhere else.
pub proof fn law_where_the_page_is_served(path: Seq<char>)
    ensures
        is_dashboard_path("/"@) && is_dashboard_path("/dashboard"@) && is_dashboard_path(
            "/dashboard/"@,
        ),
        is_dashboard_path(path) ==> path == "/"@ || path == "/dashboard"@ || path == "/dashboard/"@,
{
}

} // verus!
