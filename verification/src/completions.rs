//! The completion popup of the shell's input line.
//!
//! Looking suggestions up is left to the application; when it is due, what it
//! does to the popup, and what accepting a suggestion writes to the shell is
//! decided here.

use crate::text::{chars_of, spells};
use vstd::prelude::*;

verus! {

/// The popup.
pub struct Completions {
    /// What is offered.
    pub suggestions: Vec<String>,
    /// The line and the cursor in it that the suggestions are for.
    pub input: Option<(String, usize)>,
    /// The highlighted suggestion.
    pub selected: usize,
    /// The first suggestion that shows.
    pub scroll: usize,
    /// Whether the popup stays closed until a key is typed.
    pub dismissed: bool,
}

/// What a report of the input line calls for.
#[derive(Clone, Copy, Debug, PartialEq, Eq, Structural)]
pub enum Refresh {
    /// Nothing: the line is the same.
    Unchanged,
    /// The popup was emptied.
    Emptied,
    /// Suggestions for the line are to be looked up and filled in.
    Query,
}

/// A line and a cursor as characters.
pub open spec fn input_view(input: Option<(String, usize)>) -> Option<(Seq<char>, usize)> {
    match input {
        Some((line, cursor)) => Some((line@, cursor)),
        None => None,
    }
}

/// Compares two lines.
fn same_input(a: &Option<(String, usize)>, b: &Option<(String, usize)>) -> (same: bool)
    ensures
        same == (input_view(*a) == input_view(*b)),
{
    match (a, b) {
        (None, None) => true,
        (Some((x, m)), Some((y, n))) => {
            let chars: Vec<char> = chars_of(x.as_str());
            *m == *n && spells(&chars, y.as_str())
        },
        _ => false,
    }
}

/// What a report of the input line calls for.
pub open spec fn refresh_of(
    popup: Completions,
    current: Option<(Seq<char>, usize)>,
    autocomplete: bool,
) -> Refresh {
    if current == input_view(popup.input) {
        Refresh::Unchanged
    } else if popup.dismissed || !autocomplete || current is None {
        Refresh::Emptied
    } else {
        Refresh::Query
    }
}

/// What accepting a suggestion writes to the shell: what extends the line,
/// and a carriage return where the line is run.
pub open spec fn accepted_bytes(suffix: Option<Seq<u8>>, submit: bool) -> Seq<u8> {
    let extension = match suffix {
        Some(s) => s,
        None => Seq::empty(),
    };
    if submit {
        extension.push(0x0d)
    } else {
        extension
    }
}

impl Completions {
    /// A closed popup.
    pub fn new() -> (popup: Completions)
        ensures
            popup.suggestions@.len() == 0,
            popup.input is None,
            popup.selected == 0,
            popup.scroll == 0,
            !popup.dismissed,
    {
        Completions { suggestions: Vec::new(), input: None, selected: 0, scroll: 0, dismissed: false }
    }

    /// Takes a report of the input line. The popup is emptied when the line
    /// changed, and suggestions are called for unless it was dismissed or the
    /// feature is off.
    pub fn recompute_completions(
        &mut self,
        current: Option<(String, usize)>,
        autocomplete: bool,
    ) -> (refresh: Refresh)
        ensures
            refresh == refresh_of(*old(self), input_view(current), autocomplete),
            refresh == Refresh::Unchanged ==> *final(self) == *old(self),
            refresh != Refresh::Unchanged ==> {
                &&& final(self).suggestions@.len() == 0
                &&& input_view(final(self).input) == input_view(current)
                &&& final(self).selected == 0
                &&& final(self).scroll == 0
                &&& final(self).dismissed == old(self).dismissed
            },
    {
        if same_input(&current, &self.input) {
            return Refresh::Unchanged;
        }
        let query = !self.dismissed && autocomplete && current.is_some();
        self.input = current;
        self.suggestions = Vec::new();
        self.selected = 0;
        self.scroll = 0;
        if query {
            Refresh::Query
        } else {
            Refresh::Emptied
        }
    }

    /// Fills in the suggestions that were looked up.
    pub fn fill(&mut self, suggestions: Vec<String>)
        ensures
            final(self).suggestions == suggestions,
            final(self).input == old(self).input,
            final(self).selected == old(self).selected,
            final(self).scroll == old(self).scroll,
            final(self).dismissed == old(self).dismissed,
    {
        self.suggestions = suggestions;
    }

    /// Opens the popup for the current line on request, also after it was
    /// dismissed. Says whether suggestions are to be looked up; `None` when the
    /// feature is off.
    pub fn trigger_completion(
        &mut self,
        current: Option<(String, usize)>,
        autocomplete: bool,
    ) -> (query: Option<bool>)
        ensures
            query == if autocomplete {
                Some(current is Some)
            } else {
                None
            },
            !autocomplete ==> *final(self) == *old(self),
            autocomplete ==> !final(self).dismissed,
            autocomplete && current is Some ==> {
                &&& input_view(final(self).input) == input_view(current)
                &&& final(self).suggestions@.len() == 0
                &&& final(self).selected == 0
                &&& final(self).scroll == 0
            },
            autocomplete && current is None ==> {
                &&& final(self).input == old(self).input
                &&& final(self).suggestions == old(self).suggestions
                &&& final(self).selected == old(self).selected
                &&& final(self).scroll == old(self).scroll
            },
    {
        if !autocomplete {
            return None;
        }
        self.dismissed = false;
        if current.is_some() {
            self.input = current;
            self.suggestions = Vec::new();
            self.selected = 0;
            self.scroll = 0;
            Some(true)
        } else {
            Some(false)
        }
    }

    /// Accepts the highlighted suggestion. `suffix` is what extends the line
    /// as it is now; there is none where the suggestion does not fit it, and no
    /// line where the shell reported none. The result is what to write to the
    /// shell; `None` when nothing is highlighted.
    ///
    /// A line that is run closes the popup. Otherwise it stays open on
    /// `keep_open`, to be filled anew, and is dismissed without.
    pub fn accept_selected_completion(
        &mut self,
        has_line: bool,
        suffix: Option<Vec<u8>>,
        keep_open: bool,
        submit: bool,
    ) -> (written: Option<Vec<u8>>)
        ensures
            old(self).selected >= old(self).suggestions@.len() ==> written is None && *final(self)
                == *old(self),
            old(self).selected < old(self).suggestions@.len() ==> {
                &&& written is Some
                &&& written->0@ == if has_line {
                    accepted_bytes(
                        match suffix {
                            Some(s) => Some(s@),
                            None => None,
                        },
                        submit,
                    )
                } else {
                    Seq::<u8>::empty()
                }
                &&& final(self).input is None
                &&& final(self).selected == 0
                &&& final(self).scroll == 0
                &&& if keep_open && !submit {
                    final(self).suggestions == old(self).suggestions && final(self).dismissed
                        == old(self).dismissed
                } else {
                    final(self).suggestions@.len() == 0 && final(self).dismissed
                }
            },
    {
        if self.selected >= self.suggestions.len() {
            return None;
        }
        let mut bytes: Vec<u8> = Vec::new();
        if has_line {
            if let Some(s) = suffix {
                bytes = s;
            }
            if submit {
                bytes.push(0x0d);
            }
        }
        self.input = None;
        if submit || !keep_open {
            self.suggestions = Vec::new();
            self.dismissed = true;
        }
        self.selected = 0;
        self.scroll = 0;
        Some(bytes)
    }
}

/// A dismissed popup stays closed, whatever the shell reports.
pub proof fn dismissed_popup_stays_closed(
    popup: Completions,
    current: Option<(Seq<char>, usize)>,
    autocomplete: bool,
)
    requires
        popup.dismissed,
    ensures
        refresh_of(popup, current, autocomplete) != Refresh::Query,
{
}

/// A report of the same line looks nothing up.
pub proof fn same_line_is_not_looked_up(
    popup: Completions,
    current: Option<(Seq<char>, usize)>,
    autocomplete: bool,
)
    requires
        current == input_view(popup.input),
    ensures
        refresh_of(popup, current, autocomplete) == Refresh::Unchanged,
{
}

/// With the feature off nothing is looked up.
pub proof fn nothing_is_looked_up_when_off(
    popup: Completions,
    current: Option<(Seq<char>, usize)>,
)
    ensures
        refresh_of(popup, current, false) != Refresh::Query,
{
}

/// A report of another line empties the popup and sets the line; suggestions are
/// looked up exactly when there is a line, the feature is on and the popup was not
/// dismissed. A report of the same line changes nothing.
pub proof fn report_follows_the_line(
    popup: &mut Completions,
    line: String,
    cursor: usize,
    autocomplete: bool,
    refresh: Refresh,
)
    requires
        call_ensures(
            Completions::recompute_completions,
            (popup, Some((line, cursor)), autocomplete),
            refresh,
        ),
    ensures
        ({
            let was = old(popup).input;
            let same = was is Some && (was->0).0@ == line@ && (was->0).1 == cursor;
            &&& same <==> refresh is Unchanged
            &&& same ==> *final(popup) == *old(popup)
            &&& !same ==> {
                &&& refresh is Query <==> autocomplete && !old(popup).dismissed
                &&& final(popup).suggestions@.len() == 0
                &&& final(popup).input is Some
                &&& (final(popup).input->0).0@ == line@
                &&& (final(popup).input->0).1 == cursor
                &&& final(popup).selected == 0 && final(popup).scroll == 0
                &&& final(popup).dismissed == old(popup).dismissed
            }
        }),
{
}

/// A report of no line empties a popup that had one, and looks nothing up.
pub proof fn no_line_empties_the_popup(
    popup: &mut Completions,
    autocomplete: bool,
    refresh: Refresh,
)
    requires
        call_ensures(Completions::recompute_completions, (popup, None, autocomplete), refresh),
    ensures
        old(popup).input is None ==> refresh is Unchanged && *final(popup) == *old(popup),
        old(popup).input is Some ==> {
            &&& refresh is Emptied
            &&& final(popup).suggestions@.len() == 0 && final(popup).input is None
            &&& final(popup).selected == 0 && final(popup).scroll == 0
            &&& final(popup).dismissed == old(popup).dismissed
        },
{
}

/// A request opens a popup that was dismissed, where the feature is on, and looks
/// suggestions up where there is a line.
pub proof fn request_opens_the_popup(
    popup: &mut Completions,
    current: Option<(String, usize)>,
    autocomplete: bool,
    query: Option<bool>,
)
    requires
        call_ensures(Completions::trigger_completion, (popup, current, autocomplete), query),
    ensures
        !autocomplete ==> query is None && *final(popup) == *old(popup),
        autocomplete ==> query is Some && !final(popup).dismissed && query->0 == (current is Some),
        autocomplete && current is Some ==> {
            &&& final(popup).input is Some
            &&& (final(popup).input->0).0@ == (current->0).0@
            &&& (final(popup).input->0).1 == (current->0).1
            &&& final(popup).suggestions@.len() == 0
            &&& final(popup).selected == 0 && final(popup).scroll == 0
        },
        autocomplete && current is None ==> {
            &&& final(popup).input == old(popup).input
            &&& final(popup).suggestions == old(popup).suggestions
            &&& final(popup).selected == old(popup).selected
            &&& final(popup).scroll == old(popup).scroll
        },
{
}

/// Accepting writes what extends the line, and a carriage return where the line is
/// run. Running it closes the popup, and so does accepting without keeping it open.
/// Without a highlighted suggestion nothing happens.
pub proof fn accepting_extends_the_line(
    popup: &mut Completions,
    has_line: bool,
    suffix: Option<Vec<u8>>,
    keep_open: bool,
    submit: bool,
    written: Option<Vec<u8>>,
)
    requires
        call_ensures(
            Completions::accept_selected_completion,
            (popup, has_line, suffix, keep_open, submit),
            written,
        ),
    ensures
        ({
            let any = old(popup).selected < old(popup).suggestions@.len();
            let open = keep_open && !submit;
            &&& written is Some <==> any
            &&& !any ==> *final(popup) == *old(popup)
            &&& any && !has_line ==> (written->0)@.len() == 0
            &&& any && has_line && suffix is Some && !submit ==> (written->0)@ == (suffix->0)@
            &&& any && has_line && suffix is Some && submit ==> (written->0)@ == (suffix->0)@.push(
                13,
            )
            &&& any && has_line && suffix is None && !submit ==> (written->0)@.len() == 0
            &&& any && has_line && suffix is None && submit ==> (written->0)@ == seq![13u8]
            &&& any ==> final(popup).input is None
            &&& any ==> final(popup).selected == 0 && final(popup).scroll == 0
            &&& any && open ==> final(popup).suggestions == old(popup).suggestions
            &&& any && open ==> final(popup).dismissed == old(popup).dismissed
            &&& any && !open ==> final(popup).suggestions@.len() == 0 && final(popup).dismissed
        }),
{
    if old(popup).selected < old(popup).suggestions@.len() && has_line && suffix is None && submit {
        assert((written->0)@ =~= seq![13u8]);
    }
}

/// A popup starts closed, and is filled with what was looked up and nothing else.
pub proof fn popup_is_filled(
    fresh: Completions,
    popup: &mut Completions,
    suggestions: Vec<String>,
)
    requires
        call_ensures(Completions::new, (), fresh),
        call_ensures(Completions::fill, (popup, suggestions), ()),
    ensures
        fresh.suggestions@.len() == 0 && fresh.input is None && fresh.selected == 0,
        fresh.scroll == 0 && !fresh.dismissed,
        final(popup).suggestions == suggestions,
        final(popup).input == old(popup).input,
        final(popup).selected == old(popup).selected,
        final(popup).scroll == old(popup).scroll,
        final(popup).dismissed == old(popup).dismissed,
{
}

} // verus!
