use vstd::prelude::*;

verus! {

/// One frame of the resolution path: the key of a type that is being built,
/// and the type's name.
#[derive(Debug)]
pub struct ResolutionEntry {
    pub type_id: u64,
    pub name: String,
}

impl View for ResolutionEntry {
    type V = (u64, Seq<char>);

    open spec fn view(&self) -> (u64, Seq<char>) {
        (self.type_id, self.name@)
    }
}

impl Clone for ResolutionEntry {
    fn clone(&self) -> (res: Self)
        ensures
            res@ == self@,
    {
        ResolutionEntry { type_id: self.type_id, name: self.name.clone() }
    }
}

/// The views of a sequence of resolution entries.
pub open spec fn entry_views(entries: Seq<ResolutionEntry>) -> Seq<(u64, Seq<char>)> {
    entries.map_values(|e: ResolutionEntry| e@)
}

/// The name of the last type on a resolution path: the one whose provider
/// asked for the recurring type.
pub open spec fn culprit(path: Seq<(u64, Seq<char>)>) -> Option<Seq<char>> {
    if path.len() == 0 {
        None
    } else {
        Some(path.last().1)
    }
}

/// The line that describes one frame of a cycle.
pub open spec fn cycle_line(
    name: Seq<char>,
    recurring: Seq<char>,
    culprit: Option<Seq<char>>,
) -> Seq<char> {
    if name == recurring {
        "\t"@ + name + " ← first occurrence\n"@
    } else if culprit == Some(name) {
        "\t"@ + name + " ← provider depends on "@ + recurring + "\n"@
    } else {
        "\t"@ + name + "\n"@
    }
}

/// The lines of the frames of a path, in order.
pub open spec fn cycle_lines(
    path: Seq<(u64, Seq<char>)>,
    recurring: Seq<char>,
    culprit: Option<Seq<char>>,
) -> Seq<char>
    decreases path.len(),
{
    if path.len() == 0 {
        Seq::empty()
    } else {
        cycle_lines(path.drop_last(), recurring, culprit) + cycle_line(
            path.last().1,
            recurring,
            culprit,
        )
    }
}

/// The text that describes a cycle: one line per frame of the path, then a
/// line with the recurring type.
pub open spec fn cycle_text(path: Seq<(u64, Seq<char>)>, recurring: Seq<char>) -> Seq<char> {
    cycle_lines(path, recurring, culprit(path)) + "\t"@ + recurring + "\n"@
}

/// The lines of a path hold the line of each of its frames, in place.
proof fn lemma_lines_hold_line(
    path: Seq<(u64, Seq<char>)>,
    recurring: Seq<char>,
    culprit: Option<Seq<char>>,
    j: int,
) -> (parts: (Seq<char>, Seq<char>))
    requires
        0 <= j < path.len(),
    ensures
        cycle_lines(path, recurring, culprit) == parts.0 + cycle_line(path[j].1, recurring, culprit)
            + parts.1,
    decreases path.len(),
{
    let line = cycle_line(path[j].1, recurring, culprit);
    if j == path.len() - 1 {
        let before = cycle_lines(path.drop_last(), recurring, culprit);
        assert(before + line =~= before + line + Seq::<char>::empty());
        (before, Seq::empty())
    } else {
        let inner = path.drop_last();
        assert(inner[j] == path[j]);
        let (before, after) = lemma_lines_hold_line(inner, recurring, culprit, j);
        let last = cycle_line(path.last().1, recurring, culprit);
        assert(before + line + after + last =~= before + line + (after + last));
        (before, after + last)
    }
}

/// The text of a cycle marks the frame of the recurring type as its first
/// occurrence.
pub proof fn lemma_text_marks_first_occurrence(
    path: Seq<(u64, Seq<char>)>,
    recurring: Seq<char>,
    j: int,
)
    requires
        0 <= j < path.len(),
        path[j].1 == recurring,
    ensures
        exists|before: Seq<char>, after: Seq<char>|
            cycle_text(path, recurring) == before + ("\t"@ + recurring + " ← first occurrence\n"@)
                + after,
{
    let (before, after) = lemma_lines_hold_line(path, recurring, culprit(path), j);
    let tail = after + "\t"@ + recurring + "\n"@;
    assert(cycle_text(path, recurring) =~= before + ("\t"@ + recurring + " ← first occurrence\n"@)
        + tail);
}

/// The text of a cycle marks the last frame of the path, when it is not the
/// recurring type, as the one whose provider depends on the recurring type.
pub proof fn lemma_text_marks_culprit(path: Seq<(u64, Seq<char>)>, recurring: Seq<char>)
    requires
        path.len() > 0,
        path.last().1 != recurring,
    ensures
        exists|before: Seq<char>, after: Seq<char>|
            cycle_text(path, recurring) == before + ("\t"@ + path.last().1
                + " ← provider depends on "@ + recurring + "\n"@) + after,
{
    let j = path.len() - 1;
    let (before, after) = lemma_lines_hold_line(path, recurring, culprit(path), j);
    let tail = after + "\t"@ + recurring + "\n"@;
    assert(cycle_text(path, recurring) =~= before + ("\t"@ + path.last().1
        + " ← provider depends on "@ + recurring + "\n"@) + tail);
}

/// The text of a cycle names every frame of the path on a line of its own,
/// in the order of the path, and ends with a line naming the recurring type.
pub proof fn lemma_text_lists_every_frame(
    path: Seq<(u64, Seq<char>)>,
    recurring: Seq<char>,
    j: int,
)
    requires
        0 <= j < path.len(),
    ensures
        exists|before: Seq<char>, after: Seq<char>|
            cycle_text(path, recurring) == before + ("\t"@ + path[j].1) + after,
{
    let (before, after) = lemma_lines_hold_line(path, recurring, culprit(path), j);
    let line = cycle_line(path[j].1, recurring, culprit(path));
    let rest = line.subrange(("\t"@ + path[j].1).len() as int, line.len() as int);
    assert(line =~= ("\t"@ + path[j].1) + rest);
    let tail = rest + after + "\t"@ + recurring + "\n"@;
    assert(cycle_text(path, recurring) =~= before + ("\t"@ + path[j].1) + tail);
}

/// The text of a cycle ends with a line naming the recurring type; for an
/// empty path it is that line alone.
pub proof fn lemma_text_ends_with_recurring(path: Seq<(u64, Seq<char>)>, recurring: Seq<char>)
    ensures
        exists|before: Seq<char>| cycle_text(path, recurring) == before + ("\t"@ + recurring + "\n"@),
        path.len() == 0 ==> cycle_text(path, recurring) == "\t"@ + recurring + "\n"@,
{
    let before = cycle_lines(path, recurring, culprit(path));
    assert(cycle_text(path, recurring) =~= before + ("\t"@ + recurring + "\n"@));
    if path.len() == 0 {
        assert(cycle_text(path, recurring) =~= "\t"@ + recurring + "\n"@);
    }
}

/// A dependency cycle: the resolution path at the moment the cycle was found,
/// and the type that was asked for a second time.
#[derive(Debug)]
pub struct Cycle {
    entries: Vec<ResolutionEntry>,
    recurring_type: String,
}

impl View for Cycle {
    type V = (Seq<(u64, Seq<char>)>, Seq<char>);

    closed spec fn view(&self) -> (Seq<(u64, Seq<char>)>, Seq<char>) {
        (entry_views(self.entries@), self.recurring_type@)
    }
}

impl Cycle {
    /// The resolution path at the moment the cycle was found.
    pub fn entries(&self) -> (res: &Vec<ResolutionEntry>)
        ensures
            entry_views(res@) == self@.0,
    {
        &self.entries
    }

    /// The type that was asked for while it was being built.
    pub fn recurring_type(&self) -> (res: &String)
        ensures
            res@ == self@.1,
    {
        &self.recurring_type
    }

    /// The text that describes the cycle, one line per frame: the first
    /// occurrence of the recurring type is marked, and so is the last frame,
    /// whose provider asked for it again.
    pub fn render(&self) -> (text: String)
        ensures
            text@ == cycle_text(self@.0, self@.1),
    {
        let ghost path = entry_views(self.entries@);
        let ghost recurring = self.recurring_type@;
        let n = self.entries.len();
        let mut out = String::new();
        let mut i: usize = 0;
        while i < n
            invariant
                n == self.entries@.len(),
                path == entry_views(self.entries@),
                recurring == self.recurring_type@,
                i <= n,
                out@ == cycle_lines(path.take(i as int), recurring, culprit(path)),
            decreases n - i,
        {
            let name = &self.entries[i].name;
            assert(path.take(i + 1).drop_last() =~= path.take(i as int));
            assert(path.take(i + 1).last() == path[i as int]);
            out.append("\t");
            out.append(name.as_str());
            if *name == self.recurring_type {
                out.append(" ← first occurrence\n");
            } else if *name == self.entries[n - 1].name {
                out.append(" ← provider depends on ");
                out.append(self.recurring_type.as_str());
                out.append("\n");
            } else {
                out.append("\n");
            }
            i = i + 1;
        }
        assert(path.take(n as int) =~= path);
        out.append("\t");
        out.append(self.recurring_type.as_str());
        out.append("\n");
        out
    }
}

/// What a `ProviderError` states, with names as character sequences.
pub enum ProviderErrorView {
    NoProvider { name: Seq<char>, type_id: u64 },
    CycleDetected { entries: Seq<(u64, Seq<char>)>, recurring_type: Seq<char> },
    NoValue { name: Seq<char> },
    ProvideError { name: Seq<char>, error: Seq<char> },
}

/// Error of resolving a type.
#[derive(Debug)]
pub enum ProviderError {
    /// No provider was registered for the requested type.
    NoProvider { name: String, type_id: u64 },
    /// The requested type depends on itself.
    CycleDetected(Cycle),
    /// A resolved value could not be handed out as the requested type.
    NoValue { name: String },
    /// A provider returned an error; `error` is its message.
    ProvideError { name: String, error: String },
}

impl View for ProviderError {
    type V = ProviderErrorView;

    open spec fn view(&self) -> ProviderErrorView {
        match self {
            ProviderError::NoProvider { name, type_id } => ProviderErrorView::NoProvider {
                name: name@,
                type_id: *type_id,
            },
            ProviderError::CycleDetected(c) => ProviderErrorView::CycleDetected {
                entries: c@.0,
                recurring_type: c@.1,
            },
            ProviderError::NoValue { name } => ProviderErrorView::NoValue {
                name: name@,
            },
            ProviderError::ProvideError { name, error } => ProviderErrorView::ProvideError {
                name: name@,
                error: error@,
            },
        }
    }
}

/// The decimal digit `d` as text.
pub open spec fn digit_text(d: nat) -> Seq<char> {
    if d == 0 {
        "0"@
    } else if d == 1 {
        "1"@
    } else if d == 2 {
        "2"@
    } else if d == 3 {
        "3"@
    } else if d == 4 {
        "4"@
    } else if d == 5 {
        "5"@
    } else if d == 6 {
        "6"@
    } else if d == 7 {
        "7"@
    } else if d == 8 {
        "8"@
    } else {
        "9"@
    }
}

/// The decimal notation of `n`, without leading zeros.
pub open spec fn decimal_text(n: nat) -> Seq<char>
    decreases n,
{
    if n < 10 {
        digit_text(n)
    } else {
        decimal_text(n / 10) + digit_text(n % 10)
    }
}

fn digit_str(d: u64) -> (s: &'static str)
    requires
        d < 10,
    ensures
        s@ == digit_text(d as nat),
{
    if d == 0 {
        "0"
    } else if d == 1 {
        "1"
    } else if d == 2 {
        "2"
    } else if d == 3 {
        "3"
    } else if d == 4 {
        "4"
    } else if d == 5 {
        "5"
    } else if d == 6 {
        "6"
    } else if d == 7 {
        "7"
    } else if d == 8 {
        "8"
    } else {
        "9"
    }
}

/// Appends the decimal notation of `n` to `out`.
fn append_decimal(out: &mut String, n: u64)
    ensures
        final(out)@ == old(out)@ + decimal_text(n as nat),
    decreases n,
{
    if n >= 10 {
        append_decimal(out, n / 10);
    }
    out.append(digit_str(n % 10));
    assert(n < 10 ==> n % 10 == n);
}

/// The text of a provider error.
pub open spec fn provider_error_text(e: ProviderErrorView) -> Seq<char> {
    match e {
        ProviderErrorView::NoProvider { name, type_id } => "No provider registered for "@ + name
            + " with id "@ + decimal_text(type_id as nat),
        ProviderErrorView::CycleDetected { entries, recurring_type } => "Cycle detected:\n"@
            + cycle_text(entries, recurring_type),
        ProviderErrorView::NoValue { name } => "No value for: "@ + name,
        ProviderErrorView::ProvideError { name, error } => "Could not provide: "@ + name + ": "@
            + error,
    }
}

impl ProviderError {
    /// The error's text: what went wrong, and for which type.
    pub fn message(&self) -> (text: String)
        ensures
            text@ == provider_error_text(self@),
    {
        let mut out = String::new();
        match self {
            ProviderError::NoProvider { name, type_id } => {
                out.append("No provider registered for ");
                out.append(name.as_str());
                out.append(" with id ");
                append_decimal(&mut out, *type_id);
            },
            ProviderError::CycleDetected(cycle) => {
                out.append("Cycle detected:\n");
                let text = cycle.render();
                out.append(text.as_str());
            },
            ProviderError::NoValue { name } => {
                out.append("No value for: ");
                out.append(name.as_str());
            },
            ProviderError::ProvideError { name, error } => {
                out.append("Could not provide: ");
                out.append(name.as_str());
                out.append(": ");
                out.append(error.as_str());
            },
        }
        out
    }

    /// A cycle error for the given resolution path and recurring type; the
    /// path is copied.
    pub fn cycle(entries: &[ResolutionEntry], recurring_type: String) -> (res: Self)
        ensures
            res@ == (ProviderErrorView::CycleDetected {
                entries: entry_views(entries@),
                recurring_type: recurring_type@,
            }),
    {
        let n = entries.len();
        let mut copied: Vec<ResolutionEntry> = Vec::new();
        let mut i: usize = 0;
        while i < n
            invariant
                n == entries@.len(),
                i <= n,
                copied@.len() == i,
                forall|j: int| 0 <= j < i ==> #[trigger] copied@[j]@ == entries@[j]@,
            decreases n - i,
        {
            copied.push(entries[i].clone());
            i = i + 1;
        }
        assert(entry_views(copied@) =~= entry_views(entries@));
        ProviderError::CycleDetected(Cycle { entries: copied, recurring_type })
    }

    /// The error of a provider of the type named `name` that failed
    /// with the message `error`.
    pub fn new(name: String, error: String) -> (res: Self)
        ensures
            res@ == (ProviderErrorView::ProvideError { name: name@, error: error@ }),
    {
        ProviderError::ProvideError { name, error }
    }
}

/// What an `InvokeError` states.
pub enum InvokeErrorView {
    Provide(ProviderErrorView),
    Invoke { error: Seq<char> },
}

/// Error of running the invokables.
#[derive(Debug)]
pub enum InvokeError {
    /// A provider failed while resolving inside an invokable.
    Provide(ProviderError),
    /// An invokable returned an error; `error` is its message.
    Invoke { error: String },
}

impl View for InvokeError {
    type V = InvokeErrorView;

    open spec fn view(&self) -> InvokeErrorView {
        match self {
            InvokeError::Provide(e) => InvokeErrorView::Provide(e@),
            InvokeError::Invoke { error } => InvokeErrorView::Invoke { error: error@ },
        }
    }
}

/// The text of an invoke error.
pub open spec fn invoke_error_text(e: InvokeErrorView) -> Seq<char> {
    match e {
        InvokeErrorView::Provide(p) => "provide error: "@ + provider_error_text(p),
        InvokeErrorView::Invoke { error } => "Could not invoke: "@ + error,
    }
}

impl InvokeError {
    /// The error's text.
    pub fn message(&self) -> (text: String)
        ensures
            text@ == invoke_error_text(self@),
    {
        let mut out = String::new();
        match self {
            InvokeError::Provide(e) => {
                out.append("provide error: ");
                let text = e.message();
                out.append(text.as_str());
            },
            InvokeError::Invoke { error } => {
                out.append("Could not invoke: ");
                out.append(error.as_str());
            },
        }
        out
    }

    /// The error of an invokable that failed with the message `error`.
    pub fn new(error: String) -> (res: Self)
        ensures
            res@ == (InvokeErrorView::Invoke { error: error@ }),
    {
        InvokeError::Invoke { error }
    }
}

impl From<ProviderError> for InvokeError {
    fn from(e: ProviderError) -> (res: Self) {
        InvokeError::Provide(e)
    }
}

impl vstd::std_specs::convert::FromSpecImpl<ProviderError> for InvokeError {
    open spec fn obeys_from_spec() -> bool {
        true
    }

    open spec fn from_spec(e: ProviderError) -> InvokeError {
        InvokeError::Provide(e)
    }
}

} // verus!
