//! A table of services and what they are doing.

use crate::config;
use crate::config::{split_target, Config};
use crate::container;
use crate::ecs::TaskDefinition;
use crate::number;
use crate::order;
use crate::text;
use crate::text::same;
use vstd::prelude::*;

verus! {

/// A line of the table.
#[derive(Debug)]
pub struct ServiceRow {
    pub name: String,
    pub status: String,
    pub cpu: String,
    pub memory: String,
    pub capacity: String,
    pub image: String,
    pub tasks: usize,
}

/// What a [`ServiceRow`] says.
#[verifier::ext_equal]
pub struct RowView {
    pub name: Seq<char>,
    pub status: Seq<char>,
    pub cpu: Seq<char>,
    pub memory: Seq<char>,
    pub capacity: Seq<char>,
    pub image: Seq<char>,
    pub tasks: usize,
}

impl View for ServiceRow {
    type V = RowView;

    open spec fn view(&self) -> RowView {
        RowView {
            name: self.name@,
            status: self.status@,
            cpu: self.cpu@,
            memory: self.memory@,
            capacity: self.capacity@,
            image: self.image@,
            tasks: self.tasks,
        }
    }
}

/// What the lines of a table say.
pub open spec fn row_views(rows: Seq<ServiceRow>) -> Seq<RowView> {
    rows.map_values(|r: ServiceRow| r@)
}

/// The first deployment of a service.
#[derive(Debug)]
pub struct FirstDeployment {
    pub task_definition: Option<String>,
    /// The first of its capacity providers.
    pub capacity_provider: Option<String>,
}

/// A service, as far as the table shows it.
#[derive(Debug)]
pub struct ServiceSummary {
    pub running_count: i32,
    pub desired_count: i32,
    pub pending_count: i32,
    pub status: Option<String>,
    pub deployment: Option<FirstDeployment>,
}

/// What came of looking a service up.
#[derive(Debug)]
pub enum ServiceLookup {
    Found(ServiceSummary),
    NotFound,
    Failed,
}

/// What is known of a service that is running as many tasks as the counts say.
pub open spec fn status_text(svc: ServiceSummary) -> Seq<char> {
    let running = svc.running_count as usize;
    let desired = svc.desired_count as usize;
    let pending = svc.pending_count as usize;
    if desired == 0 {
        "STOPPED"@
    } else if running == desired && pending == 0 {
        "RUNNING"@
    } else if pending > 0 {
        "PENDING("@ + number::decimal(pending as nat) + ")"@
    } else if running < desired {
        "PARTIAL("@ + number::decimal(running as nat) + "/"@ + number::decimal(desired as nat)
            + ")"@
    } else {
        match svc.status {
            Some(status) => status@,
            None => "UNKNOWN"@,
        }
    }
}

fn service_status(svc: &ServiceSummary) -> (r: String)
    ensures
        r@ == status_text(*svc),
{
    let running: usize = #[verifier::truncate] (svc.running_count as usize);
    let desired: usize = #[verifier::truncate] (svc.desired_count as usize);
    let pending: usize = #[verifier::truncate] (svc.pending_count as usize);
    if desired == 0 {
        String::from_str("STOPPED")
    } else if running == desired && pending == 0 {
        String::from_str("RUNNING")
    } else if pending > 0 {
        let mut m = String::from_str("PENDING(");
        m.append(number::to_decimal(pending as u128).as_str());
        m.append(")");
        m
    } else if running < desired {
        let mut m = String::from_str("PARTIAL(");
        m.append(number::to_decimal(running as u128).as_str());
        m.append("/");
        m.append(number::to_decimal(desired as u128).as_str());
        m.append(")");
        m
    } else {
        match &svc.status {
            Some(status) => status.clone(),
            None => String::from_str("UNKNOWN"),
        }
    }
}

/// The number of bytes of a text.
pub open spec fn byte_len(s: Seq<char>) -> int {
    vstd::utf8::encode_utf8(s).len() as int
}

/// Whether `s` is what is shown of an image: what stands behind the last slash,
/// and of that no more than the first thirty bytes.
pub open spec fn is_shown_image(image: Seq<char>, s: Seq<char>) -> bool {
    let short = text::after_last(image, '/');
    if byte_len(short) <= 30 {
        s == short
    } else {
        s.is_prefix_of(short) && byte_len(s) == 30
    }
}

/// The UTF-8 encoding of a text begins with that of its beginning.
proof fn lemma_bytes_grow(s: Seq<char>, k: int)
    requires
        0 <= k < s.len(),
    ensures
        byte_len(s.take(k + 1)) == byte_len(s.take(k)) + byte_len(seq![s[k]]),
        1 <= byte_len(seq![s[k]]) <= 4,
{
    let t = s.take(k + 1);
    assert(t =~= s.take(k) + seq![s[k]]);
    lemma_encode_concat(s.take(k), seq![s[k]]);
    let c = seq![s[k]];
    reveal_with_fuel(vstd::utf8::encode_utf8, 2);
    assert(c.drop_first() =~= Seq::empty());
    vstd::utf8::encode_utf8_first_scalar(c);
}

proof fn lemma_encode_concat(a: Seq<char>, b: Seq<char>)
    ensures
        vstd::utf8::encode_utf8(a + b) == vstd::utf8::encode_utf8(a) + vstd::utf8::encode_utf8(b),
    decreases a.len(),
{
    if a.len() == 0 {
        assert(a + b =~= b);
        assert(vstd::utf8::encode_utf8(a) =~= Seq::empty());
        assert(vstd::utf8::encode_utf8(a) + vstd::utf8::encode_utf8(b)
            =~= vstd::utf8::encode_utf8(b));
    } else {
        lemma_encode_concat(a.drop_first(), b);
        assert((a + b).drop_first() =~= a.drop_first() + b);
        assert((a + b)[0] == a[0]);
        assert(vstd::utf8::encode_utf8(a + b) =~= vstd::utf8::encode_utf8(a)
            + vstd::utf8::encode_utf8(b));
    }
}

/// The number of bytes of a character.
fn char_bytes(c: char) -> (r: usize)
    ensures
        r == byte_len(seq![c]),
        1 <= r <= 4,
{
    proof {
        let s = seq![c];
        assert(s.drop_first() =~= Seq::empty());
        reveal_with_fuel(vstd::utf8::encode_utf8, 2);
        vstd::utf8::char_is_scalar(c);
    }
    let n = c as u32;
    if n < 0x80 {
        1
    } else if n < 0x800 {
        2
    } else if n < 0x1_0000 {
        3
    } else {
        4
    }
}

proof fn lemma_bytes_increase(s: Seq<char>, j: int, k: int)
    requires
        0 <= j <= k <= s.len(),
    ensures
        byte_len(s.take(j)) + (k - j) <= byte_len(s.take(k)),
    decreases k - j,
{
    if j < k {
        lemma_bytes_grow(s, k - 1);
        lemma_bytes_increase(s, j, k - 1);
    }
}

/// At most one text is shown of an image.
pub proof fn lemma_one_shown_image(image: Seq<char>, a: Seq<char>, b: Seq<char>)
    requires
        is_shown_image(image, a),
        is_shown_image(image, b),
    ensures
        a == b,
{
    let short = text::after_last(image, '/');
    if byte_len(short) > 30 {
        assert(short.take(a.len() as int) =~= a);
        assert(short.take(b.len() as int) =~= b);
        if a.len() < b.len() {
            lemma_bytes_increase(short, a.len() as int, b.len() as int);
        } else {
            lemma_bytes_increase(short, b.len() as int, a.len() as int);
        }
    }
}

/// What is shown of an image: what stands behind the last slash, cut off after
/// thirty bytes. Nothing where that would cut a character in two.
pub fn shown_image(image: &str) -> (r: Option<String>)
    ensures
        match r {
            Some(s) => is_shown_image(image@, s@),
            None => forall|s: Seq<char>| !is_shown_image(image@, s),
        },
{
    let short = text::last_piece(image, '/');
    let chars = text::chars_of(short);
    let mut used: usize = 0;
    let mut cut: Option<usize> = None;
    let mut i: usize = 0;
    assert(short@.take(0) =~= Seq::empty());
    while i < chars.len() && used <= 30
        invariant
            chars@ == short@,
            i <= chars@.len(),
            used <= 34,
            used == byte_len(short@.take(i as int)),
            cut matches Some(k) ==> k <= i && byte_len(short@.take(k as int)) == 30,
            cut is None ==> forall|k: int|
                0 <= k < i ==> byte_len(#[trigger] short@.take(k)) != 30,
        decreases chars@.len() - i,
    {
        proof {
            lemma_bytes_grow(short@, i as int);
        }
        if used == 30 {
            cut = Some(i);
        }
        used = used + char_bytes(chars[i]);
        i = i + 1;
    }
    if used <= 30 {
        assert(short@.take(i as int) =~= short@);
        return Some(String::from_str(short));
    }
    proof {
        lemma_bytes_increase(short@, i as int, short@.len() as int);
        assert(short@.take(short@.len() as int) =~= short@);
    }
    match cut {
        Some(k) => {
            let s = text::string_of(&chars, 0, k);
            assert(s@ =~= short@.take(k as int));
            Some(s)
        },
        None => {
            proof {
                assert forall|s: Seq<char>| !is_shown_image(image@, s) by {
                    if is_shown_image(image@, s) {
                        let k = s.len() as int;
                        assert(short@.take(k) =~= s);
                        if k >= i {
                            lemma_bytes_increase(short@, i as int, k);
                        }
                    }
                }
            }
            None
        },
    }
}

/// A line without details.
pub open spec fn blank_row(name: Seq<char>, status: Seq<char>) -> RowView {
    RowView {
        name,
        status,
        cpu: "-"@,
        memory: "-"@,
        capacity: "-"@,
        image: "-"@,
        tasks: 0,
    }
}

/// The task definition of the first deployment of a service.
pub open spec fn table_definition(svc: ServiceSummary) -> Option<Seq<char>> {
    match svc.deployment {
        Some(d) => match d.task_definition {
            Some(arn) => if arn@ == "-"@ {
                None
            } else {
                Some(arn@)
            },
            None => None,
        },
        None => None,
    }
}

/// The task definition that is to be looked up for a line.
pub fn wanted_definition(svc: &ServiceSummary) -> (r: Option<String>)
    ensures
        text::opt_text(r) == table_definition(*svc),
{
    match &svc.deployment {
        Some(d) => match &d.task_definition {
            Some(arn) => {
                if same(arn.as_str(), "-") {
                    None
                } else {
                    Some(arn.clone())
                }
            },
            None => None,
        },
        None => None,
    }
}

/// The text of an optional string, or a hyphen.
pub open spec fn or_hyphen(s: Option<Seq<char>>) -> Seq<char> {
    match s {
        Some(s) => s,
        None => "-"@,
    }
}

/// The image of the first container of the service itself.
pub open spec fn table_image(td: TaskDefinition) -> Seq<char> {
    let list = td@.container_definitions;
    let p = container::app_place(list, 0);
    if p < list.len() {
        or_hyphen(list[p].image)
    } else {
        "-"@
    }
}

/// Whether a line is the one for a service that was found. The task definition
/// is absent where it could not be looked up, and may be missing from the answer.
pub open spec fn is_found_row(
    name: Seq<char>,
    svc: ServiceSummary,
    td: Option<Option<TaskDefinition>>,
    row: RowView,
) -> bool {
    let known = table_definition(svc) is Some && td is Some;
    let definition = if known {
        td->0
    } else {
        None
    };
    &&& row.name == name
    &&& row.status == status_text(svc)
    &&& row.cpu == match definition {
        Some(td) => or_hyphen(td@.cpu),
        None => "-"@,
    }
    &&& row.memory == match definition {
        Some(td) => or_hyphen(td@.memory),
        None => "-"@,
    }
    &&& row.capacity == if known {
        or_hyphen(text::opt_text(svc.deployment->0.capacity_provider))
    } else {
        "-"@
    }
    &&& is_shown_image(
        match definition {
            Some(td) => table_image(td),
            None => "-"@,
        },
        row.image,
    )
    &&& row.tasks == svc.running_count as usize
}

/// Whether a line is the one for a short name.
pub open spec fn is_row(
    name: Seq<char>,
    target: Seq<char>,
    lookup: ServiceLookup,
    td: Option<Option<TaskDefinition>>,
    row: RowView,
) -> bool {
    if config::cluster_and_service(target) is None {
        row == blank_row(name, "INVALID"@)
    } else {
        match lookup {
            ServiceLookup::NotFound => row == blank_row(name, "NOT FOUND"@),
            ServiceLookup::Failed => row == blank_row(name, "ERROR"@),
            ServiceLookup::Found(svc) => is_found_row(name, svc, td, row),
        }
    }
}

fn blank(name: &str, status: &str) -> (r: ServiceRow)
    ensures
        r@ == blank_row(name@, status@),
{
    ServiceRow {
        name: String::from_str(name),
        status: String::from_str(status),
        cpu: String::from_str("-"),
        memory: String::from_str("-"),
        capacity: String::from_str("-"),
        image: String::from_str("-"),
        tasks: 0,
    }
}

fn hyphen_or(s: &Option<String>) -> (r: String)
    ensures
        r@ == or_hyphen(text::opt_text(*s)),
{
    match s {
        Some(s) => s.clone(),
        None => String::from_str("-"),
    }
}

/// Writes the line for a short name, from what was found out about the service
/// and, where it was asked for, its task definition. There is no line where the
/// name of the image would have to be cut inside a character.
pub fn service_row(
    name: &str,
    target: &str,
    lookup: &ServiceLookup,
    td: &Option<Option<TaskDefinition>>,
) -> (r: Option<ServiceRow>)
    ensures
        match r {
            Some(row) => is_row(name@, target@, *lookup, *td, row@),
            None => forall|row: RowView| !is_row(name@, target@, *lookup, *td, row),
        },
{
    if split_target(target).is_none() {
        return Some(blank(name, "INVALID"));
    }
    let svc = match lookup {
        ServiceLookup::Found(svc) => svc,
        ServiceLookup::NotFound => {
            return Some(blank(name, "NOT FOUND"));
        },
        ServiceLookup::Failed => {
            return Some(blank(name, "ERROR"));
        },
    };
    let wanted = wanted_definition(svc).is_some();
    let known = wanted && td.is_some();
    let definition: Option<&TaskDefinition> = match td {
        Some(Some(d)) => if wanted {
            Some(d)
        } else {
            None
        },
        _ => None,
    };
    let (cpu, memory, image) = match definition {
        Some(d) => {
            let image = match container::find_app_container(&d.container_definitions) {
                Some(cd) => {
                    proof {
                        let p = container::app_place(d@.container_definitions, 0);
                        assert(d@.container_definitions[p] == d.container_definitions@[p]@);
                    }
                    hyphen_or(&cd.image)
                },
                None => String::from_str("-"),
            };
            assert(image@ == table_image(*d));
            (hyphen_or(&d.cpu), hyphen_or(&d.memory), image)
        },
        None => (String::from_str("-"), String::from_str("-"), String::from_str("-")),
    };
    let capacity = match &svc.deployment {
        Some(d) => if known {
            hyphen_or(&d.capacity_provider)
        } else {
            String::from_str("-")
        },
        None => String::from_str("-"),
    };
    match shown_image(image.as_str()) {
        Some(shown) => Some(
            ServiceRow {
                name: String::from_str(name),
                status: service_status(svc),
                cpu,
                memory,
                capacity,
                image: shown,
                tasks: #[verifier::truncate]
                (svc.running_count as usize),
            },
        ),
        None => {
            proof {
                assert forall|row: RowView| !is_row(name@, target@, *lookup, *td, row) by {
                    if is_row(name@, target@, *lookup, *td, row) {
                        assert(is_shown_image(image@, row.image));
                    }
                }
            }
            None
        },
    }
}

/// The colour of a status: green while a service runs, yellow while it starts,
/// red when something is wrong.
pub open spec fn status_colour(status: Seq<char>) -> Seq<char> {
    if status == "RUNNING"@ {
        "\x1b[32m"@
    } else if "PENDING"@.is_prefix_of(status) || status == "ACTIVATING"@ || status
        == "PROVISIONING"@ {
        "\x1b[33m"@
    } else if status == "STOPPED"@ || "PARTIAL"@.is_prefix_of(status)
        || "STOPPING"@.is_prefix_of(status) || status == "ERROR"@ || status == "INVALID"@ || status
        == "NOT FOUND"@ {
        "\x1b[31m"@
    } else {
        "\x1b[0m"@
    }
}

/// Writes a status in its colour.
pub fn colorize_status(status: &str) -> (r: String)
    ensures
        r@ == status_colour(status@) + text::padded(status@, 12) + "\x1b[0m"@,
{
    let colour = if same(status, "RUNNING") {
        "\x1b[32m"
    } else if text::starts_with(status, "PENDING") || same(status, "ACTIVATING") || same(
        status,
        "PROVISIONING",
    ) {
        "\x1b[33m"
    } else if same(status, "STOPPED") || text::starts_with(status, "PARTIAL") || text::starts_with(
        status,
        "STOPPING",
    ) || same(status, "ERROR") || same(status, "INVALID") || same(status, "NOT FOUND") {
        "\x1b[31m"
    } else {
        "\x1b[0m"
    };
    let mut out = String::from_str(colour);
    text::push_padded(&mut out, status, 12);
    out.append("\x1b[0m");
    out
}

/// The line above the table.
pub open spec fn header_text() -> Seq<char> {
    text::padded("NAME"@, 15) + " "@ + text::padded("STATUS"@, 12) + " "@ + text::padded("CPU"@, 6)
        + " "@ + text::padded("MEM"@, 6) + " "@ + text::padded("CAPACITY"@, 15) + " "@
        + text::padded("IMAGE"@, 30) + " "@ + text::padded("TASKS"@, 5)
}

/// A line of the table, as it is shown.
pub open spec fn line_text(row: RowView) -> Seq<char> {
    text::padded(row.name, 15) + " "@ + (status_colour(row.status) + text::padded(row.status, 12)
        + "\x1b[0m"@) + " "@ + text::padded(row.cpu, 6) + " "@ + text::padded(row.memory, 6) + " "@
        + text::padded(row.capacity, 15) + " "@ + text::padded(row.image, 30) + " "@
        + number::decimal(row.tasks as nat)
}

fn header() -> (r: String)
    ensures
        r@ == header_text(),
{
    let mut line = String::new();
    text::push_padded(&mut line, "NAME", 15);
    assert(line@ =~= text::padded("NAME"@, 15));
    line.append(" ");
    text::push_padded(&mut line, "STATUS", 12);
    line.append(" ");
    text::push_padded(&mut line, "CPU", 6);
    line.append(" ");
    text::push_padded(&mut line, "MEM", 6);
    line.append(" ");
    text::push_padded(&mut line, "CAPACITY", 15);
    line.append(" ");
    text::push_padded(&mut line, "IMAGE", 30);
    line.append(" ");
    text::push_padded(&mut line, "TASKS", 5);
    line
}

fn row_line(row: &ServiceRow) -> (r: String)
    ensures
        r@ == line_text(row@),
{
    let mut line = String::new();
    text::push_padded(&mut line, row.name.as_str(), 15);
    assert(line@ =~= text::padded(row.name@, 15));
    line.append(" ");
    line.append(colorize_status(row.status.as_str()).as_str());
    line.append(" ");
    text::push_padded(&mut line, row.cpu.as_str(), 6);
    line.append(" ");
    text::push_padded(&mut line, row.memory.as_str(), 6);
    line.append(" ");
    text::push_padded(&mut line, row.capacity.as_str(), 15);
    line.append(" ");
    text::push_padded(&mut line, row.image.as_str(), 30);
    line.append(" ");
    line.append(number::to_decimal(row.tasks as u128).as_str());
    line
}

/// Writes the table, one text for each line.
pub fn table_lines(rows: &Vec<ServiceRow>) -> (r: Vec<String>)
    ensures
        text::texts(r@) == seq![header_text()] + row_views(rows@).map_values(
            |row: RowView| line_text(row),
        ),
{
    let mut out: Vec<String> = Vec::new();
    out.push(header());
    let mut i: usize = 0;
    while i < rows.len()
        invariant
            i <= rows@.len(),
            out@.len() == i + 1,
            out@[0]@ == header_text(),
            forall|j: int| 0 <= j < i ==> (#[trigger] out@[j + 1])@ == line_text(rows@[j]@),
        decreases rows@.len() - i,
    {
        let ghost before = out@;
        out.push(row_line(&rows[i]));
        assert forall|j: int| 0 <= j < i + 1 implies (#[trigger] out@[j + 1])@ == line_text(
            rows@[j]@,
        ) by {
            if j < i {
                assert(out@[j + 1] == before[j + 1]);
            }
        }
        i = i + 1;
    }
    let ghost want = seq![header_text()] + row_views(rows@).map_values(
        |row: RowView| line_text(row),
    );
    assert forall|k: int| 0 <= k < out@.len() implies text::texts(out@)[k] == want[k] by {
        if k > 0 {
            assert(out@[(k - 1) + 1]@ == line_text(rows@[k - 1]@));
        }
    }
    assert(text::texts(out@) =~= want);
    out
}

fn same_row(a: &ServiceRow, b: &ServiceRow) -> (r: bool)
    ensures
        r == (a@ == b@),
{
    same(a.name.as_str(), b.name.as_str()) && same(a.status.as_str(), b.status.as_str()) && same(
        a.cpu.as_str(),
        b.cpu.as_str(),
    ) && same(a.memory.as_str(), b.memory.as_str()) && same(
        a.capacity.as_str(),
        b.capacity.as_str(),
    ) && same(a.image.as_str(), b.image.as_str()) && a.tasks == b.tasks
}

/// Whether two tables hold the same lines. A table that is watched is shown again
/// only when it has changed.
pub fn same_rows(a: &Vec<ServiceRow>, b: &Vec<ServiceRow>) -> (r: bool)
    ensures
        r == (row_views(a@) == row_views(b@)),
{
    if a.len() != b.len() {
        assert(row_views(a@).len() != row_views(b@).len());
        return false;
    }
    let mut i: usize = 0;
    while i < a.len()
        invariant
            i <= a@.len(),
            a@.len() == b@.len(),
            forall|j: int| 0 <= j < i ==> (#[trigger] a@[j])@ == b@[j]@,
        decreases a@.len() - i,
    {
        if !same_row(&a[i], &b[i]) {
            assert(row_views(a@)[i as int] != row_views(b@)[i as int]);
            return false;
        }
        i = i + 1;
    }
    assert(row_views(a@) =~= row_views(b@));
    true
}

/// Whether the key at one place comes before that at another: by the order of
/// strings, and otherwise as they stand.
pub open spec fn comes_first(keys: Seq<Seq<char>>, a: int, b: int) -> bool {
    order::precedes(keys[a], keys[b]) || (keys[a] == keys[b] && a < b)
}

/// Whether a list of places holds all keys in order.
pub open spec fn in_key_order(keys: Seq<Seq<char>>, places: Seq<usize>) -> bool {
    &&& places.len() == keys.len()
    &&& places.no_duplicates()
    &&& forall|i: int| 0 <= i < places.len() ==> #[trigger] places[i] < keys.len()
    &&& forall|i: int, j: int|
        0 <= i < j < places.len() ==> comes_first(
            keys,
            #[trigger] places[i] as int,
            #[trigger] places[j] as int,
        )
}

proof fn lemma_first_of_three(keys: Seq<Seq<char>>, a: int, b: int, c: int)
    requires
        comes_first(keys, a, b),
        comes_first(keys, b, c),
    ensures
        comes_first(keys, a, c),
{
    if order::precedes(keys[a], keys[b]) && order::precedes(keys[b], keys[c]) {
        order::lemma_transitive(keys[a], keys[b], keys[c]);
    }
}

/// Lists the places of keys in the order of the keys.
pub fn sorted_places(list: &Vec<String>) -> (r: Vec<usize>)
    ensures
        in_key_order(text::texts(list@), r@),
{
    let ghost keys = text::texts(list@);
    let mut out: Vec<usize> = Vec::new();
    let mut i: usize = 0;
    while i < list.len()
        invariant
            keys == text::texts(list@),
            i <= list@.len(),
            out@.len() == i,
            out@.no_duplicates(),
            forall|k: int| 0 <= k < i ==> #[trigger] out@[k] < i,
            forall|a: int, b: int|
                0 <= a < b < i ==> comes_first(
                    keys,
                    #[trigger] out@[a] as int,
                    #[trigger] out@[b] as int,
                ),
        decreases list@.len() - i,
    {
        let mut p: usize = i;
        while p > 0 && order::before(list[i].as_str(), list[out[p - 1]].as_str())
            invariant
                keys == text::texts(list@),
                i < list@.len(),
                p <= i,
                out@.len() == i,
                forall|k: int| 0 <= k < i ==> #[trigger] out@[k] < i,
                forall|k: int|
                    p <= k < i ==> comes_first(keys, i as int, #[trigger] out@[k] as int),
            decreases p,
        {
            p = p - 1;
            assert(comes_first(keys, i as int, out@[p as int] as int));
        }
        proof {
            if p > 0 {
                let q = out@[p - 1] as int;
                order::lemma_total(keys[i as int], keys[q]);
                assert(comes_first(keys, q, i as int));
                assert forall|k: int| 0 <= k < p implies comes_first(
                    keys,
                    #[trigger] out@[k] as int,
                    i as int,
                ) by {
                    if k < p - 1 {
                        lemma_first_of_three(keys, out@[k] as int, q, i as int);
                    }
                }
            }
        }
        let ghost before = out@;
        out.insert(p, i);
        proof {
            assert forall|a: int, b: int| 0 <= a < b < out@.len() implies comes_first(
                keys,
                #[trigger] out@[a] as int,
                #[trigger] out@[b] as int,
            ) by {
                let pa = if a < p { a } else { a - 1 };
                let pb = if b < p { b } else { b - 1 };
                if a != p {
                    assert(out@[a] == before[pa]);
                }
                if b != p {
                    assert(out@[b] == before[pb]);
                }
            }
            assert forall|a: int, b: int|
                0 <= a < out@.len() && 0 <= b < out@.len() && a != b implies out@[a] != out@[b] by {
                let pa = if a < p { a } else { a - 1 };
                let pb = if b < p { b } else { b - 1 };
                if a != p {
                    assert(out@[a] == before[pa]);
                }
                if b != p {
                    assert(out@[b] == before[pb]);
                }
            }
            assert forall|k: int| 0 <= k < out@.len() implies #[trigger] out@[k] < i + 1 by {
                let pk = if k < p { k } else { k - 1 };
                if k != p {
                    assert(out@[k] == before[pk]);
                }
            }
        }
        i = i + 1;
    }
    out
}

/// The short names in lower case, as they are kept.
pub open spec fn lowered_names(cfg: Config) -> Seq<Seq<char>> {
    Seq::new(cfg.aliases.len_spec() as nat, |i: int| text::lowercase(cfg.aliases.key(i)))
}

/// Lists the places of the short names in the order of the table: without regard
/// to case, and otherwise as they are kept.
pub fn table_order(cfg: &Config) -> (r: Vec<usize>)
    ensures
        in_key_order(lowered_names(*cfg), r@),
{
    let ghost all = lowered_names(*cfg);
    let mut lowered: Vec<String> = Vec::new();
    let n = cfg.aliases.len();
    let mut i: usize = 0;
    assert(text::texts(lowered@) =~= all.take(0));
    while i < n
        invariant
            n == cfg.aliases.len_spec(),
            i <= n,
            all == lowered_names(*cfg),
            text::texts(lowered@) == all.take(i as int),
        decreases n - i,
    {
        let ghost before = text::texts(lowered@);
        lowered.push(text::to_lowercase(cfg.aliases.key_at(i)));
        assert(text::texts(lowered@) =~= before.push(all[i as int]));
        assert(all.take(i + 1) =~= all.take(i as int).push(all[i as int]));
        i = i + 1;
    }
    assert(all.take(all.len() as int) =~= all);
    sorted_places(&lowered)
}

/// The status of a service goes by its counts: one that is to run nothing is stopped; one
/// that has tasks to come is pending; one that runs what it should is running; one that runs
/// less is partial, and says how much; and one that runs more has the status that ECS gives.
pub proof fn lemma_status_goes_by_counts(svc: ServiceSummary)
    requires
        svc.running_count >= 0,
        svc.desired_count >= 0,
        svc.pending_count >= 0,
    ensures
        svc.desired_count == 0 ==> status_text(svc) == "STOPPED"@,
        svc.desired_count > 0 && svc.pending_count > 0 ==> status_text(svc) == "PENDING("@
            + number::decimal(svc.pending_count as nat) + ")"@,
        svc.desired_count > 0 && svc.pending_count == 0 && svc.running_count == svc.desired_count
            ==> status_text(svc) == "RUNNING"@,
        svc.desired_count > 0 && svc.pending_count == 0 && svc.running_count < svc.desired_count
            ==> status_text(svc) == "PARTIAL("@ + number::decimal(svc.running_count as nat) + "/"@
            + number::decimal(svc.desired_count as nat) + ")"@,
        svc.desired_count > 0 && svc.pending_count == 0 && svc.running_count > svc.desired_count
            ==> status_text(svc) == match svc.status {
            Some(s) => s@,
            None => "UNKNOWN"@,
        },
{
}

/// A service that cannot be named, that is not there or that could not be looked up has a
/// line that says so, with a hyphen in place of everything else.
pub proof fn lemma_line_without_service(
    name: Seq<char>,
    target: Seq<char>,
    cluster: Seq<char>,
    service: Seq<char>,
    lookup: ServiceLookup,
    td: Option<Option<TaskDefinition>>,
    row: RowView,
)
    requires
        !cluster.contains('/'),
        !service.contains('/'),
        is_row(name, target, lookup, td, row),
        target == cluster || (target == cluster + seq!['/'] + service && !(lookup is Found)),
    ensures
        row.name == name,
        row.status == if target == cluster {
            "INVALID"@
        } else if lookup is NotFound {
            "NOT FOUND"@
        } else {
            "ERROR"@
        },
        row.cpu == "-"@ && row.memory == "-"@ && row.capacity == "-"@ && row.image == "-"@,
        row.tasks == 0,
{
    config::lemma_parts_of_target(cluster, service, seq![]);
}

/// The line of a service whose task definition is known shows what the definition says of
/// processor and memory, the first capacity provider, the image of the first container of
/// the service itself, and how many tasks run.
pub proof fn lemma_line_of_service(
    name: Seq<char>,
    cluster: Seq<char>,
    service: Seq<char>,
    svc: ServiceSummary,
    d: FirstDeployment,
    arn: String,
    definition: TaskDefinition,
    p: int,
    row: RowView,
)
    requires
        !cluster.contains('/'),
        !service.contains('/'),
        svc.running_count >= 0,
        svc.deployment == Some(d),
        d.task_definition == Some(arn),
        arn@ != "-"@,
        0 <= p < definition@.container_definitions.len(),
        forall|i: int|
            0 <= i < p ==> ((#[trigger] definition@.container_definitions[i]).name matches Some(n)
                && "ecs-service-connect-"@.is_prefix_of(n)),
        definition@.container_definitions[p].name matches Some(n)
            ==> !"ecs-service-connect-"@.is_prefix_of(n),
        is_row(
            name,
            cluster + seq!['/'] + service,
            ServiceLookup::Found(svc),
            Some(Some(definition)),
            row,
        ),
    ensures
        row.name == name,
        row.status == status_text(svc),
        row.tasks == svc.running_count,
        row.cpu == match definition@.cpu {
            Some(s) => s,
            None => "-"@,
        },
        row.memory == match definition@.memory {
            Some(s) => s,
            None => "-"@,
        },
        row.capacity == match d.capacity_provider {
            Some(s) => s@,
            None => "-"@,
        },
        is_shown_image(
            match definition@.container_definitions[p].image {
                Some(s) => s,
                None => "-"@,
            },
            row.image,
        ),
        table_definition(svc) == Some(arn@),
{
    config::lemma_parts_of_target(cluster, service, seq![]);
    let list = definition@.container_definitions;
    container::lemma_app_is_first(list);
    container::lemma_infra_names(list[p]);
    let q = container::app_place(list, 0);
    if q < p {
        assert(list[q].name is Some);
    }
    if p < q {
        assert(list[p].name is Some);
    }
}

/// The line of a service whose task definition could not be looked up shows its status and
/// its tasks, with a hyphen in place of everything else.
pub proof fn lemma_line_without_definition(
    name: Seq<char>,
    cluster: Seq<char>,
    service: Seq<char>,
    svc: ServiceSummary,
    row: RowView,
)
    requires
        !cluster.contains('/'),
        !service.contains('/'),
        svc.running_count >= 0,
        is_row(name, cluster + seq!['/'] + service, ServiceLookup::Found(svc), None, row),
    ensures
        row.name == name,
        row.status == status_text(svc),
        row.tasks == svc.running_count,
        row.cpu == "-"@ && row.memory == "-"@ && row.capacity == "-"@,
        svc.deployment is None ==> table_definition(svc) is None,
{
    config::lemma_parts_of_target(cluster, service, seq![]);
}

/// A short image is shown by what stands behind its last slash.
pub proof fn lemma_short_image(path: Seq<char>, image: Seq<char>, s: Seq<char>)
    requires
        !image.contains('/'),
        byte_len(image) <= 30,
        is_shown_image(path + seq!['/'] + image, s) || is_shown_image(image, s),
    ensures
        s == image,
{
    let whole = path + seq!['/'] + image;
    text::lemma_after_last(whole, '/');
    text::lemma_after_last(image, '/');
    lemma_last_piece(path, image);
}

proof fn lemma_last_piece(path: Seq<char>, image: Seq<char>)
    requires
        !image.contains('/'),
    ensures
        text::after_last(path + seq!['/'] + image, '/') == image,
        text::after_last(image, '/') == image,
{
    let whole = path + seq!['/'] + image;
    let t = text::after_last(whole, '/');
    text::lemma_after_last(whole, '/');
    text::lemma_after_last(image, '/');
    let n = path.len() as int;
    let start = whole.len() - t.len();
    assert forall|i: int| 0 <= i < t.len() implies t[i] == whole[start + i] by {
        assert(whole[start + i] == (whole.take(start) + t)[start + i]);
    }
    if start <= n {
        assert(t[n - start] == '/');
        assert(t.contains('/'));
    }
    if start > n + 1 {
        assert(whole[start - 1] == image[start - 1 - n - 1]);
        assert(image.contains('/'));
    }
    assert(t =~= image);
    let u = text::after_last(image, '/');
    if u.len() < image.len() {
        assert(image.contains('/'));
    }
    assert(u =~= image);
}

/// A running service is green, one that starts is yellow, one that has stopped, runs less
/// than it should or cannot be shown is red, and any other has no colour.
pub proof fn lemma_colours(rest: Seq<char>)
    ensures
        status_colour("RUNNING"@) == "\x1b[32m"@,
        status_colour("PENDING"@ + rest) == "\x1b[33m"@,
        status_colour("ACTIVATING"@) == "\x1b[33m"@,
        status_colour("PROVISIONING"@) == "\x1b[33m"@,
        status_colour("STOPPED"@) == "\x1b[31m"@,
        status_colour("PARTIAL"@ + rest) == "\x1b[31m"@,
        status_colour("STOPPING"@ + rest) == "\x1b[31m"@,
        status_colour("ERROR"@) == "\x1b[31m"@,
        status_colour("INVALID"@) == "\x1b[31m"@,
        status_colour("NOT FOUND"@) == "\x1b[31m"@,
        status_colour("ACTIVE"@) == "\x1b[0m"@,
        status_colour("UNKNOWN"@) == "\x1b[0m"@,
{
    reveal_strlit("RUNNING");
    reveal_strlit("PENDING");
    reveal_strlit("ACTIVATING");
    reveal_strlit("PROVISIONING");
    reveal_strlit("STOPPED");
    reveal_strlit("PARTIAL");
    reveal_strlit("STOPPING");
    reveal_strlit("ERROR");
    reveal_strlit("INVALID");
    reveal_strlit("NOT FOUND");
    reveal_strlit("ACTIVE");
    reveal_strlit("UNKNOWN");
    assert("PENDING"@.is_prefix_of("PENDING"@ + rest));
    assert("PARTIAL"@.is_prefix_of("PARTIAL"@ + rest));
    assert("STOPPING"@.is_prefix_of("STOPPING"@ + rest));
    lemma_starts(("PENDING"@ + rest), 'P', 'E');
    lemma_starts(("PARTIAL"@ + rest), 'P', 'A');
    lemma_starts(("STOPPING"@ + rest), 'S', 'T');
    lemma_starts("ACTIVATING"@, 'A', 'C');
    lemma_starts("PROVISIONING"@, 'P', 'R');
    lemma_starts("STOPPED"@, 'S', 'T');
    lemma_starts("ERROR"@, 'E', 'R');
    lemma_starts("INVALID"@, 'I', 'N');
    lemma_starts("NOT FOUND"@, 'N', 'O');
    lemma_starts("ACTIVE"@, 'A', 'C');
    lemma_starts("UNKNOWN"@, 'U', 'N');
    assert("ACTIVE"@.len() == 6 && "ACTIVATING"@.len() == 10);
}

/// What a text begins with tells it from the others.
proof fn lemma_starts(s: Seq<char>, a: char, b: char)
    requires
        s.len() >= 2,
        s[0] == a,
        s[1] == b,
    ensures
        a != 'R' ==> s != "RUNNING"@,
        a != 'P' || b != 'E' ==> !"PENDING"@.is_prefix_of(s),
        a != 'P' || b != 'A' ==> !"PARTIAL"@.is_prefix_of(s),
        a != 'S' ==> !"STOPPING"@.is_prefix_of(s) && s != "STOPPED"@,
        a != 'A' ==> s != "ACTIVATING"@,
        a != 'P' || b != 'R' ==> s != "PROVISIONING"@,
        a != 'E' ==> s != "ERROR"@,
        a != 'I' ==> s != "INVALID"@,
        a != 'N' ==> s != "NOT FOUND"@,
{
    reveal_strlit("RUNNING");
    reveal_strlit("PENDING");
    reveal_strlit("ACTIVATING");
    reveal_strlit("PROVISIONING");
    reveal_strlit("STOPPED");
    reveal_strlit("PARTIAL");
    reveal_strlit("STOPPING");
    reveal_strlit("ERROR");
    reveal_strlit("INVALID");
    reveal_strlit("NOT FOUND");
    if "PENDING"@.is_prefix_of(s) {
        assert("PENDING"@[0] == s[0] && "PENDING"@[1] == s[1]);
    }
    if "PARTIAL"@.is_prefix_of(s) {
        assert("PARTIAL"@[0] == s[0] && "PARTIAL"@[1] == s[1]);
    }
    if "STOPPING"@.is_prefix_of(s) {
        assert("STOPPING"@[0] == s[0]);
    }
}

/// In the table the columns begin at fixed places, as far as what stands in them fits: the
/// name at the front, the status between its colour and the end of it, then processor,
/// memory, capacity, image and the number of tasks.
pub proof fn lemma_columns_of_line(row: RowView)
    requires
        row.name.len() <= 15,
        row.status.len() <= 12,
        row.cpu.len() <= 6,
        row.memory.len() <= 6,
        row.capacity.len() <= 15,
        row.image.len() <= 30,
    ensures
        ({
            let line = line_text(row);
            let c = status_colour(row.status);
            let k = c.len() as int;
            let n = k + 4;
            &&& line.take(row.name.len() as int) == row.name
            &&& line.subrange(16, 16 + k) == c
            &&& line.subrange(16 + k, 16 + k + row.status.len()) == row.status
            &&& line.subrange(28 + k, 28 + n) == "\x1b[0m"@
            &&& line.subrange(29 + n, 29 + n + row.cpu.len()) == row.cpu
            &&& line.subrange(36 + n, 36 + n + row.memory.len()) == row.memory
            &&& line.subrange(43 + n, 43 + n + row.capacity.len()) == row.capacity
            &&& line.subrange(59 + n, 59 + n + row.image.len()) == row.image
            &&& line.skip(90 + n) == number::decimal(row.tasks as nat)
        }),
{
    reveal_strlit(" ");
    reveal_strlit("\x1b[0m");
    text::lemma_padded(row.name, 15);
    text::lemma_padded(row.status, 12);
    text::lemma_padded(row.cpu, 6);
    text::lemma_padded(row.memory, 6);
    text::lemma_padded(row.capacity, 15);
    text::lemma_padded(row.image, 30);
    let line = line_text(row);
    let c = status_colour(row.status);
    let k = c.len() as int;
    let n = k + 4;
    assert(text::padded(row.name, 15).take(row.name.len() as int) =~= row.name);
    assert(text::padded(row.status, 12).take(row.status.len() as int) =~= row.status);
    assert(text::padded(row.cpu, 6).take(row.cpu.len() as int) =~= row.cpu);
    assert(text::padded(row.memory, 6).take(row.memory.len() as int) =~= row.memory);
    assert(text::padded(row.capacity, 15).take(row.capacity.len() as int) =~= row.capacity);
    assert(text::padded(row.image, 30).take(row.image.len() as int) =~= row.image);
    assert(line.take(row.name.len() as int) =~= text::padded(row.name, 15).take(
        row.name.len() as int,
    ));
    assert(line.subrange(16, 16 + k) =~= c);
    assert(line.subrange(16 + k, 16 + k + row.status.len()) =~= text::padded(
        row.status,
        12,
    ).take(row.status.len() as int));
    assert(line.subrange(28 + k, 28 + n) =~= "\x1b[0m"@);
    assert(line.subrange(29 + n, 29 + n + row.cpu.len()) =~= text::padded(row.cpu, 6).take(
        row.cpu.len() as int,
    ));
    assert(line.subrange(36 + n, 36 + n + row.memory.len()) =~= text::padded(row.memory, 6).take(
        row.memory.len() as int,
    ));
    assert(line.subrange(43 + n, 43 + n + row.capacity.len()) =~= text::padded(
        row.capacity,
        15,
    ).take(row.capacity.len() as int));
    assert(line.subrange(59 + n, 59 + n + row.image.len()) =~= text::padded(row.image, 30).take(
        row.image.len() as int,
    ));
    assert(line.skip(90 + n) =~= number::decimal(row.tasks as nat));
}

/// Names that are listed in order stand so that none comes before the one in front of it,
/// and equal ones as they were kept.
pub proof fn lemma_listed_in_order(keys: Seq<Seq<char>>, places: Seq<usize>, i: int, j: int)
    requires
        in_key_order(keys, places),
        0 <= i < j < places.len(),
    ensures
        places.len() == keys.len(),
        places[i] < keys.len() && places[j] < keys.len() && places[i] != places[j],
        keys[places[i] as int] != keys[places[j] as int] ==> order::precedes(
            keys[places[i] as int],
            keys[places[j] as int],
        ),
        keys[places[i] as int] == keys[places[j] as int] ==> places[i] < places[j],
{
    assert(comes_first(keys, places[i] as int, places[j] as int));
    order::lemma_irreflexive(keys[places[i] as int]);
}

/// The heads of the columns stand above them.
pub proof fn lemma_heads_of_columns()
    ensures
        header_text().take(4) == "NAME"@,
        header_text().subrange(16, 22) == "STATUS"@,
        header_text().subrange(29, 32) == "CPU"@,
        header_text().subrange(36, 39) == "MEM"@,
        header_text().subrange(43, 51) == "CAPACITY"@,
        header_text().subrange(59, 64) == "IMAGE"@,
        header_text().skip(90) == "TASKS"@,
{
    reveal_strlit(" ");
    reveal_strlit("NAME");
    reveal_strlit("STATUS");
    reveal_strlit("CPU");
    reveal_strlit("MEM");
    reveal_strlit("CAPACITY");
    reveal_strlit("IMAGE");
    reveal_strlit("TASKS");
    text::lemma_padded("NAME"@, 15);
    text::lemma_padded("STATUS"@, 12);
    text::lemma_padded("CPU"@, 6);
    text::lemma_padded("MEM"@, 6);
    text::lemma_padded("CAPACITY"@, 15);
    text::lemma_padded("IMAGE"@, 30);
    text::lemma_padded("TASKS"@, 5);
    let h = header_text();
    assert(text::padded("NAME"@, 15).take(4) =~= "NAME"@);
    assert(text::padded("STATUS"@, 12).take(6) =~= "STATUS"@);
    assert(text::padded("CPU"@, 6).take(3) =~= "CPU"@);
    assert(text::padded("MEM"@, 6).take(3) =~= "MEM"@);
    assert(text::padded("CAPACITY"@, 15).take(8) =~= "CAPACITY"@);
    assert(text::padded("IMAGE"@, 30).take(5) =~= "IMAGE"@);
    assert(text::padded("TASKS"@, 5).take(5) =~= "TASKS"@);
    assert(h.take(4) =~= text::padded("NAME"@, 15).take(4));
    assert(h.subrange(16, 22) =~= text::padded("STATUS"@, 12).take(6));
    assert(h.subrange(29, 32) =~= text::padded("CPU"@, 6).take(3));
    assert(h.subrange(36, 39) =~= text::padded("MEM"@, 6).take(3));
    assert(h.subrange(43, 51) =~= text::padded("CAPACITY"@, 15).take(8));
    assert(h.subrange(59, 64) =~= text::padded("IMAGE"@, 30).take(5));
    assert(h.skip(90) =~= text::padded("TASKS"@, 5).take(5));
}

} // verus!
