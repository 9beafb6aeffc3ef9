//! The first-run setup: a handful of single-keypress questions, each with a
//! live preview in the very terminal that is being set up.
//!
//! The application reads the keys a byte at a time and writes what is rendered
//! here; what a key means, what the screen shows, and which question follows is
//! decided here.

use crate::paths::name_views;
use crate::text::{decimal, push_decimal};
use vstd::prelude::*;

verus! {

/// Clears the screen and puts the cursor to its top left.
pub const CLEAR: &'static str = "\x1b[2J\x1b[H";

/// What stands above every question.
pub const BANNER: &'static str =
    "\x1b[1m  Welcome to Yutani\x1b[0m\r\n  \x1b[2mLet's set up a few things. Your choices preview live.\x1b[0m\r\n";

/// What stands below every question.
pub const FOOTER: &'static str =
    "\r\n  \x1b[2m[↑/↓] move · [1-9] jump · [Enter] confirm · [q] skip setup\x1b[0m\r\n";

/// The payload that has the terminal read its configuration again.
pub const RELOAD: &'static str = "reload";

/// A keypress.
#[derive(Clone, Copy, Debug, PartialEq, Eq, Structural)]
pub enum Key {
    Up,
    Down,
    /// The number of an option, from 1.
    Digit(usize),
    Confirm,
    /// Skips the rest of the setup.
    Quit,
    /// A key that does nothing.
    Other,
}

/// How much of a keypress has been read.
#[derive(Clone, Copy, Debug, PartialEq, Eq, Structural)]
pub enum KeyReader {
    /// Nothing.
    Start,
    /// An escape.
    Escape,
    /// An escape and an introducer.
    Introduced,
}

/// What one more byte makes of a keypress: the key, or how much has been read
/// so far. No byte is the end of the input.
pub open spec fn key_of(read: KeyReader, byte: Option<u8>) -> Result<Key, KeyReader> {
    match read {
        KeyReader::Start => match byte {
            None => Ok(Key::Quit),
            Some(b) => if b == 0x03 || b == 'q' as u8 || b == 'Q' as u8 {
                Ok(Key::Quit)
            } else if b == 0x0d || b == 0x0a {
                Ok(Key::Confirm)
            } else if b == 'k' as u8 {
                Ok(Key::Up)
            } else if b == 'j' as u8 {
                Ok(Key::Down)
            } else if '1' as u8 <= b <= '9' as u8 {
                Ok(Key::Digit((b - '0' as u8) as usize))
            } else if b == 0x1b {
                Err(KeyReader::Escape)
            } else {
                Ok(Key::Other)
            },
        },
        KeyReader::Escape => if byte == Some('[' as u8) || byte == Some('O' as u8) {
            Err(KeyReader::Introduced)
        } else {
            Ok(Key::Other)
        },
        KeyReader::Introduced => if byte == Some('A' as u8) {
            Ok(Key::Up)
        } else if byte == Some('B' as u8) {
            Ok(Key::Down)
        } else {
            Ok(Key::Other)
        },
    }
}

/// Takes one more byte of a keypress.
pub fn read_key(read: KeyReader, byte: Option<u8>) -> (key: Result<Key, KeyReader>)
    ensures
        key == key_of(read, byte),
{
    match read {
        KeyReader::Start => match byte {
            None => Ok(Key::Quit),
            Some(b) => if b == 0x03 || b == 'q' as u8 || b == 'Q' as u8 {
                Ok(Key::Quit)
            } else if b == 0x0d || b == 0x0a {
                Ok(Key::Confirm)
            } else if b == 'k' as u8 {
                Ok(Key::Up)
            } else if b == 'j' as u8 {
                Ok(Key::Down)
            } else if '1' as u8 <= b && b <= ('9' as u8) {
                Ok(Key::Digit((b - '0' as u8) as usize))
            } else if b == 0x1b {
                Err(KeyReader::Escape)
            } else {
                Ok(Key::Other)
            },
        },
        KeyReader::Escape => match byte {
            Some(b) => if b == '[' as u8 || b == 'O' as u8 {
                Err(KeyReader::Introduced)
            } else {
                Ok(Key::Other)
            },
            None => Ok(Key::Other),
        },
        KeyReader::Introduced => match byte {
            Some(b) => if b == 'A' as u8 {
                Ok(Key::Up)
            } else if b == 'B' as u8 {
                Ok(Key::Down)
            } else {
                Ok(Key::Other)
            },
            None => Ok(Key::Other),
        },
    }
}

/// A single-choice question.
pub struct Question {
    pub question: String,
    pub labels: Vec<String>,
    /// The highlighted option.
    pub cur: usize,
}

/// What a key does to a question.
#[derive(Clone, Copy, Debug, PartialEq, Eq, Structural)]
pub enum Effect {
    /// The highlight is on this option now: preview it.
    Preview(usize),
    /// Nothing.
    Wait,
    /// The question is answered with this option.
    Chosen(usize),
    /// The setup is skipped.
    Skip,
}

/// Whether the highlight of a question is on one of its options.
pub open spec fn question_wf(q: Question) -> bool {
    q.cur < q.labels@.len() || (q.cur == 0 && q.labels@.len() == 0)
}

/// The effect of a key on a question with some options, by the highlighted one.
pub open spec fn effect_of(key: Key, cur: int, options: int) -> Effect {
    match key {
        Key::Quit => Effect::Skip,
        Key::Confirm => Effect::Chosen(cur as usize),
        Key::Up => Effect::Preview(
            if cur == 0 {
                (options - 1) as usize
            } else {
                (cur - 1) as usize
            },
        ),
        Key::Down => Effect::Preview(
            if cur + 1 == options {
                0
            } else {
                (cur + 1) as usize
            },
        ),
        Key::Digit(n) => if n <= options {
            Effect::Preview((n - 1) as usize)
        } else {
            Effect::Wait
        },
        Key::Other => Effect::Wait,
    }
}

/// A row of a question. The highlighted one is in reverse video.
pub open spec fn row_of(label: Seq<char>, i: int, active: bool) -> Seq<char> {
    if active {
        "    \x1b[7m "@ + decimal((i + 1) as nat) + "  "@ + label + " \x1b[0m\r\n"@
    } else {
        "     "@ + decimal((i + 1) as nat) + "  "@ + label + "\r\n"@
    }
}

/// The rows of a question.
pub open spec fn rows_of(labels: Seq<Seq<char>>, cur: int) -> Seq<char>
    decreases labels.len(),
{
    if labels.len() == 0 {
        Seq::empty()
    } else {
        rows_of(labels.drop_last(), cur) + row_of(
            labels.last(),
            labels.len() - 1,
            labels.len() - 1 == cur,
        )
    }
}

/// The screen of a question.
pub open spec fn screen_of(question: Seq<char>, labels: Seq<Seq<char>>, cur: int) -> Seq<char> {
    CLEAR@ + BANNER@ + "\r\n\x1b[1m"@ + question + "\x1b[0m\r\n\r\n"@ + rows_of(labels, cur)
        + FOOTER@
}

impl Question {
    /// A question with an option highlighted, or the last one if there are
    /// fewer.
    pub fn new(question: &str, labels: Vec<String>, default_ix: usize) -> (q: Question)
        ensures
            q.question@ == question@,
            q.labels == labels,
            q.cur == if default_ix < labels@.len() {
                default_ix as int
            } else if labels@.len() > 0 {
                labels@.len() - 1
            } else {
                0
            },
            question_wf(q),
    {
        let n: usize = labels.len();
        let cur: usize = if default_ix < n {
            default_ix
        } else if n > 0 {
            n - 1
        } else {
            0
        };
        Question { question: question.to_owned(), labels, cur }
    }

    /// What the screen shows of the question.
    pub fn render(&self) -> (s: String)
        ensures
            s@ == screen_of(self.question@, name_views(self.labels@), self.cur as int),
    {
        let ghost labels = name_views(self.labels@);
        let mut s = String::new();
        s.append(CLEAR);
        s.append(BANNER);
        s.append("\r\n\x1b[1m");
        s.append(self.question.as_str());
        s.append("\x1b[0m\r\n\r\n");
        let ghost head = s@;
        assert(head =~= CLEAR@ + BANNER@ + "\r\n\x1b[1m"@ + self.question@
            + "\x1b[0m\r\n\r\n"@);
        let mut i: usize = 0;
        assert(labels.take(0) =~= Seq::<Seq<char>>::empty());
        assert(s@ =~= head + rows_of(labels.take(0), self.cur as int));
        while i < self.labels.len()
            invariant
                i <= self.labels@.len(),
                labels == name_views(self.labels@),
                s@ == head + rows_of(labels.take(i as int), self.cur as int),
            decreases self.labels@.len() - i,
        {
            let ghost before = s@;
            if i == self.cur {
                s.append("    \x1b[7m ");
                push_decimal(&mut s, i as u64 + 1);
                s.append("  ");
                s.append(self.labels[i].as_str());
                s.append(" \x1b[0m\r\n");
            } else {
                s.append("     ");
                push_decimal(&mut s, i as u64 + 1);
                s.append("  ");
                s.append(self.labels[i].as_str());
                s.append("\r\n");
            }
            proof {
                assert(s@ =~= before + row_of(labels[i as int], i as int, i == self.cur));
                assert(labels.take(i + 1).drop_last() =~= labels.take(i as int));
                assert(labels.take(i + 1).last() == labels[i as int]);
                assert(s@ =~= head + rows_of(labels.take(i + 1), self.cur as int));
            }
            i = i + 1;
        }
        s.append(FOOTER);
        assert(labels.take(labels.len() as int) =~= labels);
        assert(s@ =~= screen_of(self.question@, labels, self.cur as int));
        s
    }

    /// What a key does. The arrows move the highlight and wrap at the ends, a
    /// digit jumps.
    pub fn on_key(&mut self, key: Key) -> (effect: Effect)
        requires
            question_wf(*old(self)),
            key is Up || key is Down ==> old(self).labels@.len() > 0,
            key != Key::Digit(0),
        ensures
            effect == effect_of(key, old(self).cur as int, old(self).labels@.len() as int),
            final(self).question == old(self).question,
            final(self).labels == old(self).labels,
            final(self).cur == match effect {
                Effect::Preview(i) => i,
                _ => old(self).cur,
            },
            question_wf(*final(self)),
    {
        let n: usize = self.labels.len();
        match key {
            Key::Quit => Effect::Skip,
            Key::Confirm => Effect::Chosen(self.cur),
            Key::Up => {
                let cur: usize = if self.cur == 0 {
                    n - 1
                } else {
                    self.cur - 1
                };
                self.cur = cur;
                Effect::Preview(cur)
            },
            Key::Down => {
                let cur: usize = if self.cur + 1 == n {
                    0
                } else {
                    self.cur + 1
                };
                self.cur = cur;
                Effect::Preview(cur)
            },
            Key::Digit(d) => if d <= n {
                self.cur = d - 1;
                Effect::Preview(d - 1)
            } else {
                Effect::Wait
            },
            Key::Other => Effect::Wait,
        }
    }
}

/// The questions, in the order in which they are asked.
#[derive(Clone, Copy, Debug, PartialEq, Eq, Structural)]
pub enum Topic {
    FontSize,
    Scheme,
    Crt,
    Autocomplete,
    /// Only where the fingerprint reader can be turned on.
    TouchId,
}

/// How strong the look of an old monitor is.
#[derive(Clone, Copy, Debug, PartialEq, Eq, Structural)]
pub enum CrtLevel {
    Off,
    Low,
    High,
}

/// The font size of an option.
pub open spec fn size_of_option(pick: int) -> u32 {
    if pick == 0 {
        9
    } else if pick == 1 {
        10
    } else if pick == 2 {
        12
    } else {
        14
    }
}

/// The font size of an option.
pub fn font_size(pick: usize) -> (size: u32)
    requires
        pick < 4,
    ensures
        size == size_of_option(pick as int),
{
    if pick == 0 {
        9
    } else if pick == 1 {
        10
    } else if pick == 2 {
        12
    } else {
        14
    }
}

/// The level of an option.
pub open spec fn level_of_option(pick: int) -> CrtLevel {
    if pick == 0 {
        CrtLevel::Off
    } else if pick == 1 {
        CrtLevel::Low
    } else {
        CrtLevel::High
    }
}

/// The level of an option.
pub fn crt_level(pick: usize) -> (level: CrtLevel)
    requires
        pick < 3,
    ensures
        level == level_of_option(pick as int),
{
    if pick == 0 {
        CrtLevel::Off
    } else if pick == 1 {
        CrtLevel::Low
    } else {
        CrtLevel::High
    }
}

/// What the question on a topic asks.
pub open spec fn question_text(topic: Topic) -> Seq<char> {
    match topic {
        Topic::FontSize => "  Font size"@,
        Topic::Scheme => "  Color scheme"@,
        Topic::Crt => "  CRT effect (bloom + scanlines)"@,
        Topic::Autocomplete => "  Autocomplete (as-you-type suggestions)"@,
        Topic::TouchId =>
            "  Use Touch ID for sudo?  \x1b[2m(authenticate sudo with your fingerprint)\x1b[0m"@,
    }
}

/// The options of the question on a topic.
pub open spec fn labels_of(topic: Topic, schemes: Seq<Seq<char>>) -> Seq<Seq<char>> {
    match topic {
        Topic::FontSize => seq![
            "9 — small"@,
            "10 — default (recommended)"@,
            "12 — large"@,
            "14 — extra large"@,
        ],
        Topic::Scheme => seq!["Built-in default"@] + schemes,
        Topic::Crt => seq!["Off"@, "Low"@, "High"@],
        Topic::Autocomplete => seq!["On (recommended)"@, "Off"@],
        Topic::TouchId => seq!["Yes, enable it (recommended)"@, "Not now"@],
    }
}

/// The option that is highlighted first.
pub open spec fn default_of(topic: Topic) -> usize {
    match topic {
        Topic::FontSize => 1,
        _ => 0,
    }
}

/// The question on a topic.
pub fn question_on(topic: Topic, schemes: &Vec<String>) -> (q: Question)
    ensures
        q.question@ == question_text(topic),
        name_views(q.labels@) == labels_of(topic, name_views(schemes@)),
        q.cur == default_of(topic),
        question_wf(q),
        q.labels@.len() > 0,
{
    let ghost names = name_views(schemes@);
    let mut labels: Vec<String> = Vec::new();
    match topic {
        Topic::FontSize => {
            labels.push("9 — small".to_owned());
            labels.push("10 — default (recommended)".to_owned());
            labels.push("12 — large".to_owned());
            labels.push("14 — extra large".to_owned());
            assert(name_views(labels@) =~= labels_of(topic, names));
            Question::new("  Font size", labels, 1)
        },
        Topic::Scheme => {
            labels.push("Built-in default".to_owned());
            let mut i: usize = 0;
            assert(name_views(labels@) =~= seq!["Built-in default"@] + names.take(0));
            while i < schemes.len()
                invariant
                    i <= schemes@.len(),
                    names == name_views(schemes@),
                    name_views(labels@) == seq!["Built-in default"@] + names.take(i as int),
                decreases schemes@.len() - i,
            {
                let ghost before = labels@;
                labels.push(schemes[i].clone());
                proof {
                    assert(name_views(labels@) =~= name_views(before).push(names[i as int]));
                    assert(names.take(i + 1) =~= names.take(i as int).push(names[i as int]));
                    assert(name_views(labels@) =~= seq!["Built-in default"@] + names.take(i + 1));
                }
                i = i + 1;
            }
            assert(names.take(names.len() as int) =~= names);
            assert(labels@.len() == name_views(labels@).len());
            Question::new("  Color scheme", labels, 0)
        },
        Topic::Crt => {
            labels.push("Off".to_owned());
            labels.push("Low".to_owned());
            labels.push("High".to_owned());
            assert(name_views(labels@) =~= labels_of(topic, names));
            Question::new("  CRT effect (bloom + scanlines)", labels, 0)
        },
        Topic::Autocomplete => {
            labels.push("On (recommended)".to_owned());
            labels.push("Off".to_owned());
            assert(name_views(labels@) =~= labels_of(topic, names));
            Question::new("  Autocomplete (as-you-type suggestions)", labels, 0)
        },
        Topic::TouchId => {
            labels.push("Yes, enable it (recommended)".to_owned());
            labels.push("Not now".to_owned());
            assert(name_views(labels@) =~= labels_of(topic, names));
            Question::new(
                "  Use Touch ID for sudo?  \x1b[2m(authenticate sudo with your fingerprint)\x1b[0m",
                labels,
                0,
            )
        },
    }
}

/// What previews an option. Two of the topics have no preview.
pub open spec fn payload_of(topic: Topic, schemes: Seq<Seq<char>>, pick: int) -> Option<
    Seq<char>,
> {
    match topic {
        Topic::FontSize => Some("font;"@ + decimal(size_of_option(pick) as nat)),
        Topic::Scheme => if pick == 0 {
            Some("scheme;-"@)
        } else {
            Some("scheme;"@ + schemes[pick - 1])
        },
        Topic::Crt => match level_of_option(pick) {
            CrtLevel::Off => Some("crt;off"@),
            CrtLevel::Low => Some("crt;low"@),
            CrtLevel::High => Some("crt;high"@),
        },
        Topic::Autocomplete => None,
        Topic::TouchId => None,
    }
}

/// What previews an option.
pub fn preview_payload(topic: Topic, schemes: &Vec<String>, pick: usize) -> (payload: Option<
    String,
>)
    requires
        pick < labels_of(topic, name_views(schemes@)).len(),
    ensures
        match payload {
            Some(p) => payload_of(topic, name_views(schemes@), pick as int) == Some(p@),
            None => payload_of(topic, name_views(schemes@), pick as int) is None,
        },
{
    match topic {
        Topic::FontSize => {
            let mut s = String::new();
            s.append("font;");
            push_decimal(&mut s, font_size(pick) as u64);
            assert(s@ =~= "font;"@ + decimal(size_of_option(pick as int) as nat));
            Some(s)
        },
        Topic::Scheme => {
            if pick == 0 {
                Some("scheme;-".to_owned())
            } else {
                let mut s = String::new();
                s.append("scheme;");
                s.append(schemes[pick - 1].as_str());
                assert(s@ =~= "scheme;"@ + schemes@[pick - 1]@);
                Some(s)
            }
        },
        Topic::Crt => match crt_level(pick) {
            CrtLevel::Off => Some("crt;off".to_owned()),
            CrtLevel::Low => Some("crt;low".to_owned()),
            CrtLevel::High => Some("crt;high".to_owned()),
        },
        Topic::Autocomplete => None,
        Topic::TouchId => None,
    }
}

/// The control sequence that carries a payload to the terminal.
pub fn osc(payload: &str) -> (sequence: String)
    ensures
        sequence@ == "\x1b]2125;"@ + payload@ + "\x07"@,
{
    let mut s = String::new();
    s.append("\x1b]2125;");
    s.append(payload);
    s.append("\x07");
    assert(s@ =~= "\x1b]2125;"@ + payload@ + "\x07"@);
    s
}

/// The settings that were chosen.
pub struct Chosen {
    pub font_size: u32,
    /// `None` for the built-in colours.
    pub scheme: Option<String>,
    pub crt: CrtLevel,
    pub autocomplete: bool,
    /// Whether the fingerprint reader is to be turned on for `sudo`.
    pub touch_id: bool,
}

/// The setup so far: the topic that is asked on, and the answers before it.
pub struct Setup {
    pub topic: Topic,
    pub schemes: Vec<String>,
    pub chosen: Chosen,
}

/// What follows an answer.
#[derive(Clone, Copy, Debug, PartialEq, Eq, Structural)]
pub enum Next {
    /// The question on the next topic.
    Ask(Topic),
    /// Nothing is written, and the setup comes back at the next start.
    Skip,
    /// The chosen settings are written.
    Finish,
}

/// The name of a scheme that was picked.
pub open spec fn scheme_of_pick(schemes: Seq<Seq<char>>, pick: int) -> Option<Seq<char>> {
    if pick == 0 {
        None
    } else {
        Some(schemes[pick - 1])
    }
}

/// A scheme as characters.
pub open spec fn scheme_view(scheme: Option<String>) -> Option<Seq<char>> {
    match scheme {
        Some(s) => Some(s@),
        None => None,
    }
}

/// What follows the answer on a topic.
pub open spec fn next_of(topic: Topic, pick: Option<usize>, touch_id_offered: bool) -> Next {
    match pick {
        None => Next::Skip,
        Some(_) => match topic {
            Topic::FontSize => Next::Ask(Topic::Scheme),
            Topic::Scheme => Next::Ask(Topic::Crt),
            Topic::Crt => Next::Ask(Topic::Autocomplete),
            Topic::Autocomplete => if touch_id_offered {
                Next::Ask(Topic::TouchId)
            } else {
                Next::Finish
            },
            Topic::TouchId => Next::Finish,
        },
    }
}

/// Whether the answers differ from others on one topic only, where one was
/// picked.
pub open spec fn answered(
    before: Chosen,
    after: Chosen,
    topic: Topic,
    schemes: Seq<Seq<char>>,
    pick: int,
) -> bool {
    &&& after.font_size == if topic == Topic::FontSize {
        size_of_option(pick)
    } else {
        before.font_size
    }
    &&& scheme_view(after.scheme) == if topic == Topic::Scheme {
        scheme_of_pick(schemes, pick)
    } else {
        scheme_view(before.scheme)
    }
    &&& after.crt == if topic == Topic::Crt {
        level_of_option(pick)
    } else {
        before.crt
    }
    &&& after.autocomplete == if topic == Topic::Autocomplete {
        pick == 0
    } else {
        before.autocomplete
    }
    &&& after.touch_id == if topic == Topic::TouchId {
        pick == 0
    } else {
        before.touch_id
    }
}

impl Setup {
    /// The setup before the first answer, with the schemes that are offered.
    pub fn new(schemes: Vec<String>) -> (setup: Setup)
        ensures
            setup.topic == Topic::FontSize,
            setup.schemes == schemes,
            setup.chosen.font_size == size_of_option(1),
            setup.chosen.scheme is None,
            setup.chosen.crt == CrtLevel::Off,
            setup.chosen.autocomplete,
            !setup.chosen.touch_id,
    {
        Setup {
            topic: Topic::FontSize,
            schemes,
            chosen: Chosen {
                font_size: 10,
                scheme: None,
                crt: CrtLevel::Off,
                autocomplete: true,
                touch_id: false,
            },
        }
    }

    /// Takes the answer on the current topic; `None` skips the setup. The
    /// fingerprint reader is only asked about where it can be turned on.
    pub fn on_answer(&mut self, pick: Option<usize>, touch_id_offered: bool) -> (next: Next)
        requires
            pick matches Some(p) ==> p < labels_of(
                old(self).topic,
                name_views(old(self).schemes@),
            ).len(),
        ensures
            next == next_of(old(self).topic, pick, touch_id_offered),
            final(self).schemes == old(self).schemes,
            final(self).topic == match next {
                Next::Ask(t) => t,
                _ => old(self).topic,
            },
            match pick {
                Some(p) => answered(
                    old(self).chosen,
                    final(self).chosen,
                    old(self).topic,
                    name_views(old(self).schemes@),
                    p as int,
                ),
                None => final(self).chosen == old(self).chosen,
            },
    {
        let p: usize = match pick {
            Some(p) => p,
            None => {
                return Next::Skip;
            },
        };
        let next: Next = match self.topic {
            Topic::FontSize => {
                self.chosen.font_size = font_size(p);
                Next::Ask(Topic::Scheme)
            },
            Topic::Scheme => {
                self.chosen.scheme = if p == 0 {
                    None
                } else {
                    Some(self.schemes[p - 1].clone())
                };
                Next::Ask(Topic::Crt)
            },
            Topic::Crt => {
                self.chosen.crt = crt_level(p);
                Next::Ask(Topic::Autocomplete)
            },
            Topic::Autocomplete => {
                self.chosen.autocomplete = p == 0;
                if touch_id_offered {
                    Next::Ask(Topic::TouchId)
                } else {
                    Next::Finish
                }
            },
            Topic::TouchId => {
                self.chosen.touch_id = p == 0;
                Next::Finish
            },
        };
        if let Next::Ask(t) = next {
            self.topic = t;
        }
        next
    }
}

/// What the screen shows after the last answer.
pub fn finish_text() -> (s: String)
    ensures
        s@ == CLEAR@ + BANNER@ + "\r\n  \x1b[1mAll set — launching your shell…\x1b[0m\r\n\r\n"@,
{
    let mut s = String::new();
    s.append(CLEAR);
    s.append(BANNER);
    s.append("\r\n  \x1b[1mAll set — launching your shell…\x1b[0m\r\n\r\n");
    assert(s@ =~= CLEAR@ + BANNER@
        + "\r\n  \x1b[1mAll set — launching your shell…\x1b[0m\r\n\r\n"@);
    s
}

/// What the screen shows when the setup is skipped.
pub fn skip_text() -> (s: String)
    ensures
        s@ == CLEAR@ + BANNER@
            + "\r\n  \x1b[1mSetup skipped.\x1b[0m \x1b[2mRun \"Run first-time setup…\" from the command palette (Cmd-Shift-P) to try again.\x1b[0m\r\n\r\n"@,
{
    let mut s = String::new();
    s.append(CLEAR);
    s.append(BANNER);
    s.append(
        "\r\n  \x1b[1mSetup skipped.\x1b[0m \x1b[2mRun \"Run first-time setup…\" from the command palette (Cmd-Shift-P) to try again.\x1b[0m\r\n\r\n",
    );
    assert(s@ =~= CLEAR@ + BANNER@
        + "\r\n  \x1b[1mSetup skipped.\x1b[0m \x1b[2mRun \"Run first-time setup…\" from the command palette (Cmd-Shift-P) to try again.\x1b[0m\r\n\r\n"@);
    s
}

/// The arrows undo each other: after a step down and a step up, or the other
/// way round, the highlight is where it was.
pub proof fn arrows_undo_each_other(cur: int, options: int)
    requires
        0 <= cur < options <= usize::MAX,
    ensures
        effect_of(Key::Down, cur, options) matches Effect::Preview(i) && effect_of(
            Key::Up,
            i as int,
            options,
        ) == Effect::Preview(cur as usize),
        effect_of(Key::Up, cur, options) matches Effect::Preview(i) && effect_of(
            Key::Down,
            i as int,
            options,
        ) == Effect::Preview(cur as usize),
{
}

/// A keypress takes at most three bytes.
pub proof fn keys_are_short(a: Option<u8>, b: Option<u8>, c: Option<u8>)
    ensures
        key_of(KeyReader::Start, a) matches Err(r) ==> (key_of(r, b) matches Err(r2) ==> key_of(
            r2,
            c,
        ) is Ok),
        key_of(KeyReader::Start, None) == Ok::<Key, KeyReader>(Key::Quit),
{
}

/// The answers to the questions that come before the last one, or `None` where
/// one of them skips the setup.
pub open spec fn skipped(picks: Seq<Option<usize>>) -> bool {
    exists|i: int| 0 <= i < picks.len() && (#[trigger] picks[i]) is None
}

/// What follows a run of answers.
pub open spec fn next_after(picks: Seq<Option<usize>>, touch_id_offered: bool) -> Next
    decreases picks.len(),
{
    if picks.len() == 0 {
        Next::Ask(Topic::FontSize)
    } else {
        match next_after(picks.drop_last(), touch_id_offered) {
            Next::Ask(topic) => next_of(topic, picks.last(), touch_id_offered),
            done => done,
        }
    }
}

/// The setup is skipped as soon as one question is. Otherwise it is finished
/// after four answers, or five where the fingerprint reader is offered.
pub proof fn setup_ends(picks: Seq<Option<usize>>, touch_id_offered: bool)
    requires
        picks.len() == if touch_id_offered {
            5int
        } else {
            4int
        },
    ensures
        next_after(picks, touch_id_offered) == if skipped(picks) {
            Next::Skip
        } else {
            Next::Finish
        },
{
    reveal_with_fuel(next_after, 6);
    let p4 = picks.drop_last();
    let p3 = p4.drop_last();
    let p2 = p3.drop_last();
    let p1 = p2.drop_last();
    assert(p1.len() >= 0);
    if skipped(picks) {
        let i = choose|i: int| 0 <= i < picks.len() && (#[trigger] picks[i]) is None;
        assert(picks[i] is None);
        assert(p4.len() > i ==> p4[i] is None);
        assert(p3.len() > i ==> p3[i] is None);
        assert(p2.len() > i ==> p2[i] is None);
        assert(p1.len() > i ==> p1[i] is None);
    } else {
        assert(forall|i: int| 0 <= i < picks.len() ==> (#[trigger] picks[i]) is Some);
        assert(p4.last() == picks[picks.len() - 2]);
        assert(p3.last() == picks[picks.len() - 3]);
        assert(p2.last() == picks[picks.len() - 4]);
        if touch_id_offered {
            assert(p1.last() == picks[picks.len() - 5]);
        }
    }
}

/// The keys of the setup: `k`, `j` and the arrows move, digits jump, Enter confirms,
/// and `q`, Ctrl-C and the end of the input quit. An arrow is an escape, `[` or `O`,
/// and `A` or `B`; every other byte is another key.
pub proof fn keys_are_read_byte_by_byte(
    b: u8,
    start: Result<Key, KeyReader>,
    escaped: Result<Key, KeyReader>,
    introduced: Result<Key, KeyReader>,
    ended: Result<Key, KeyReader>,
    read: KeyReader,
)
    requires
        call_ensures(read_key, (KeyReader::Start, Some(b)), start),
        call_ensures(read_key, (KeyReader::Escape, Some(b)), escaped),
        call_ensures(read_key, (KeyReader::Introduced, Some(b)), introduced),
        call_ensures(read_key, (read, None), ended),
    ensures
        start is Err <==> b == 27,
        start is Err ==> start->Err_0 is Escape,
        start is Ok ==> {
            &&& start->Ok_0 is Up <==> b == 107
            &&& start->Ok_0 is Down <==> b == 106
            &&& start->Ok_0 is Confirm <==> (b == 10 || b == 13)
            &&& start->Ok_0 is Quit <==> (b == 3 || b == 113 || b == 81)
            &&& start->Ok_0 is Digit <==> 49 <= b <= 57
            &&& 49 <= b <= 57 ==> start->Ok_0 == Key::Digit((b - 48) as usize)
        },
        escaped is Err <==> (b == 91 || b == 79),
        escaped is Err ==> escaped->Err_0 is Introduced,
        escaped is Ok ==> escaped->Ok_0 is Other,
        introduced is Ok,
        introduced->Ok_0 is Up <==> b == 65,
        introduced->Ok_0 is Down <==> b == 66,
        introduced->Ok_0 is Other <==> (b != 65 && b != 66),
        ended is Ok,
        read is Start ==> ended->Ok_0 is Quit,
        !(read is Start) ==> ended->Ok_0 is Other,
{
}

/// The arrows move the highlight by one and go around the ends, a digit moves it to
/// its option if there is one, and no other key moves it. Confirming chooses the
/// highlighted option.
pub proof fn keys_move_the_highlight(q: &mut Question, key: Key, effect: Effect)
    requires
        call_ensures(Question::on_key, (q, key), effect),
        old(q).cur < old(q).labels@.len() <= usize::MAX,
        key != Key::Digit(0),
    ensures
        final(q).question == old(q).question,
        final(q).labels == old(q).labels,
        effect is Preview ==> effect->Preview_0 == final(q).cur,
        !(effect is Preview) ==> final(q).cur == old(q).cur,
        ({
            let n = old(q).labels@.len() as int;
            let before = old(q).cur as int;
            let after = final(q).cur as int;
            &&& key is Down ==> effect is Preview && (after == before + 1 && after < n || after == 0
                && before == n - 1)
            &&& key is Up ==> effect is Preview && (after == before - 1 && after >= 0 || after == n
                - 1 && before == 0)
            &&& key is Digit && key->Digit_0 <= n ==> effect is Preview && after + 1
                == key->Digit_0
            &&& key is Digit && key->Digit_0 > n ==> effect is Wait
            &&& key is Other ==> effect is Wait
            &&& key is Quit ==> effect is Skip
            &&& key is Confirm ==> effect == Effect::Chosen(before as usize)
        }),
{
}

/// A question starts on the option that is asked for, or on the last one where there
/// are fewer.
pub proof fn question_starts_on_its_default(
    question: &str,
    labels: Vec<String>,
    default_ix: usize,
    q: Question,
)
    requires
        call_ensures(Question::new, (question, labels, default_ix), q),
    ensures
        q.question@ == question@ && q.labels == labels,
        default_ix < labels@.len() ==> q.cur == default_ix,
        0 < labels@.len() <= default_ix ==> q.cur + 1 == labels@.len(),
        labels@.len() == 0 ==> q.cur == 0,
{
}

/// One option more is one row more above the footer: its number, from 1, and its
/// label, in reverse video where it is highlighted. Without options the screen is
/// the banner, the question and the footer.
pub proof fn screen_has_a_row_for_each_option(
    q: &Question,
    more: &Question,
    screen: String,
    more_screen: String,
)
    requires
        call_ensures(Question::render, (q,), screen),
        call_ensures(Question::render, (more,), more_screen),
        more.question@ == q.question@,
        more.cur == q.cur,
        more.labels@.len() == q.labels@.len() + 1,
        forall|i: int| 0 <= i < q.labels@.len() ==> (#[trigger] more.labels@[i])@ == q.labels@[i]@,
    ensures
        q.labels@.len() == 0 ==> screen@ == "\x1b[2J\x1b[H"@
            + "\x1b[1m  Welcome to Yutani\x1b[0m\r\n  \x1b[2mLet's set up a few things. Your choices preview live.\x1b[0m\r\n"@
            + "\r\n\x1b[1m"@ + q.question@ + "\x1b[0m\r\n\r\n"@
            + "\r\n  \x1b[2m[↑/↓] move · [1-9] jump · [Enter] confirm · [q] skip setup\x1b[0m\r\n"@,
        ({
            let k = q.labels@.len() as int;
            let at = screen@.len() - FOOTER@.len();
            let number = decimal((k + 1) as nat);
            let label = more.labels@[k]@;
            more_screen@ == screen@.take(at) + (if q.cur == k {
                "    \x1b[7m "@ + number + "  "@ + label + " \x1b[0m\r\n"@
            } else {
                "     "@ + number + "  "@ + label + "\r\n"@
            }) + screen@.skip(at)
        }),
{
    let labels = name_views(q.labels@);
    let all = name_views(more.labels@);
    let k = labels.len() as int;
    assert(all.drop_last() =~= labels);
    assert(all.last() == more.labels@[k]@);
    let head = CLEAR@ + BANNER@ + "\r\n\x1b[1m"@ + q.question@ + "\x1b[0m\r\n\r\n"@;
    let rows = rows_of(labels, q.cur as int);
    let row = row_of(all.last(), k, k == q.cur);
    assert(screen@ == head + rows + FOOTER@);
    assert(more_screen@ == head + (rows + row) + FOOTER@);
    let at = screen@.len() - FOOTER@.len();
    assert(screen@.take(at) =~= head + rows);
    assert(screen@.skip(at) =~= FOOTER@);
    assert(more_screen@ =~= screen@.take(at) + row + screen@.skip(at));
    if k == 0 {
        assert(rows =~= Seq::<char>::empty());
        assert(screen@ =~= head + FOOTER@);
    }
}

/// The font sizes are 9, 10, 12 and 14, and the monitor's look is off, low or high.
pub proof fn options_mean_what_they_say(
    small: u32,
    medium: u32,
    large: u32,
    huge: u32,
    off: CrtLevel,
    low: CrtLevel,
    high: CrtLevel,
)
    requires
        call_ensures(font_size, (0,), small),
        call_ensures(font_size, (1,), medium),
        call_ensures(font_size, (2,), large),
        call_ensures(font_size, (3,), huge),
        call_ensures(crt_level, (0,), off),
        call_ensures(crt_level, (1,), low),
        call_ensures(crt_level, (2,), high),
    ensures
        small == 9 && medium == 10 && large == 12 && huge == 14,
        off is Off && low is Low && high is High,
{
}

/// The questions and their options. The font size starts on its second option, the
/// others on their first, and the schemes follow the built-in one.
pub proof fn questions_offer_their_options(
    schemes: &Vec<String>,
    size: Question,
    scheme: Question,
    crt: Question,
    autocomplete: Question,
    touch_id: Question,
    k: int,
)
    requires
        call_ensures(question_on, (Topic::FontSize, schemes), size),
        call_ensures(question_on, (Topic::Scheme, schemes), scheme),
        call_ensures(question_on, (Topic::Crt, schemes), crt),
        call_ensures(question_on, (Topic::Autocomplete, schemes), autocomplete),
        call_ensures(question_on, (Topic::TouchId, schemes), touch_id),
    ensures
        size.question@ == "  Font size"@ && size.cur == 1 && size.labels@.len() == 4,
        size.labels@[0]@ == "9 — small"@ && size.labels@[1]@ == "10 — default (recommended)"@,
        size.labels@[2]@ == "12 — large"@ && size.labels@[3]@ == "14 — extra large"@,
        scheme.question@ == "  Color scheme"@ && scheme.cur == 0,
        scheme.labels@.len() == schemes@.len() + 1,
        scheme.labels@[0]@ == "Built-in default"@,
        0 <= k < schemes@.len() ==> scheme.labels@[k + 1]@ == schemes@[k]@,
        crt.question@ == "  CRT effect (bloom + scanlines)"@ && crt.cur == 0,
        crt.labels@.len() == 3 && crt.labels@[0]@ == "Off"@ && crt.labels@[1]@ == "Low"@,
        crt.labels@[2]@ == "High"@,
        autocomplete.question@ == "  Autocomplete (as-you-type suggestions)"@,
        autocomplete.cur == 0 && autocomplete.labels@.len() == 2,
        autocomplete.labels@[0]@ == "On (recommended)"@ && autocomplete.labels@[1]@ == "Off"@,
        touch_id.question@
            == "  Use Touch ID for sudo?  \x1b[2m(authenticate sudo with your fingerprint)\x1b[0m"@,
        touch_id.cur == 0 && touch_id.labels@.len() == 2,
        touch_id.labels@[0]@ == "Yes, enable it (recommended)"@,
        touch_id.labels@[1]@ == "Not now"@,
{
    let names = name_views(schemes@);
    assert(name_views(size.labels@).len() == 4);
    assert(name_views(size.labels@)[0] == size.labels@[0]@);
    assert(name_views(size.labels@)[1] == size.labels@[1]@);
    assert(name_views(size.labels@)[2] == size.labels@[2]@);
    assert(name_views(size.labels@)[3] == size.labels@[3]@);
    assert(name_views(scheme.labels@).len() == names.len() + 1);
    assert(name_views(scheme.labels@)[0] == scheme.labels@[0]@);
    if 0 <= k < schemes@.len() {
        assert(name_views(scheme.labels@)[k + 1] == names[k]);
    }
    assert(name_views(crt.labels@).len() == 3);
    assert(name_views(crt.labels@)[0] == crt.labels@[0]@);
    assert(name_views(crt.labels@)[1] == crt.labels@[1]@);
    assert(name_views(crt.labels@)[2] == crt.labels@[2]@);
    assert(name_views(autocomplete.labels@).len() == 2);
    assert(name_views(autocomplete.labels@)[0] == autocomplete.labels@[0]@);
    assert(name_views(autocomplete.labels@)[1] == autocomplete.labels@[1]@);
    assert(name_views(touch_id.labels@).len() == 2);
    assert(name_views(touch_id.labels@)[0] == touch_id.labels@[0]@);
    assert(name_views(touch_id.labels@)[1] == touch_id.labels@[1]@);
}

/// An option on the font is previewed by its size, one on the colours by the
/// scheme's name or `-`, one on the monitor by its level; the others have no
/// preview.
pub proof fn previews_name_what_they_show(
    schemes: &Vec<String>,
    pick: usize,
    size: u32,
    font: Option<String>,
    scheme: Option<String>,
    crt: Option<String>,
    autocomplete: Option<String>,
    touch_id: Option<String>,
)
    requires
        call_ensures(font_size, (pick,), size),
        call_ensures(preview_payload, (Topic::FontSize, schemes, pick), font),
        call_ensures(preview_payload, (Topic::Scheme, schemes, pick), scheme),
        call_ensures(preview_payload, (Topic::Crt, schemes, pick), crt),
        call_ensures(preview_payload, (Topic::Autocomplete, schemes, pick), autocomplete),
        call_ensures(preview_payload, (Topic::TouchId, schemes, pick), touch_id),
        pick <= schemes@.len(),
    ensures
        font is Some && (font->0)@ == "font;"@ + decimal(size as nat),
        scheme is Some,
        pick == 0 ==> (scheme->0)@ == "scheme;-"@,
        pick > 0 ==> (scheme->0)@ == "scheme;"@ + schemes@[pick - 1]@,
        pick < 3 ==> crt is Some,
        pick == 0 ==> (crt->0)@ == "crt;off"@,
        pick == 1 ==> (crt->0)@ == "crt;low"@,
        pick == 2 ==> (crt->0)@ == "crt;high"@,
        autocomplete is None && touch_id is None,
{
    if pick > 0 {
        assert(name_views(schemes@)[pick - 1] == schemes@[pick - 1]@);
    }
}

/// A payload travels in an operating system command with the number 2125.
pub proof fn payload_travels_in_a_command(payload: &str, sequence: String)
    requires
        call_ensures(osc, (payload,), sequence),
    ensures
        sequence@ == seq!['\x1b', ']', '2', '1', '2', '5', ';'] + payload@ + seq!['\x07'],
{
    reveal_strlit("\x1b]2125;");
    reveal_strlit("\x07");
    assert("\x1b]2125;"@ =~= seq!['\x1b', ']', '2', '1', '2', '5', ';']);
    assert("\x07"@ =~= seq!['\x07']);
}

/// The setup starts with the font size and with the settings that are there without
/// it.
pub proof fn setup_starts_with_the_defaults(schemes: Vec<String>, setup: Setup)
    requires
        call_ensures(Setup::new, (schemes,), setup),
    ensures
        setup.topic is FontSize && setup.schemes == schemes,
        setup.chosen.font_size == 10 && setup.chosen.scheme is None && setup.chosen.crt is Off,
        setup.chosen.autocomplete && !setup.chosen.touch_id,
{
}

/// An answer sets what its topic is about and nothing else, and leads to the next
/// topic: font size, scheme, monitor, suggestions, and the fingerprint reader where
/// it is offered.
pub proof fn answers_set_their_topic(
    setup: &mut Setup,
    pick: usize,
    touch_id_offered: bool,
    next: Next,
    size: u32,
    level: CrtLevel,
)
    requires
        call_ensures(Setup::on_answer, (setup, Some(pick), touch_id_offered), next),
        call_ensures(font_size, (pick,), size),
        call_ensures(crt_level, (pick,), level),
        pick <= old(setup).schemes@.len(),
    ensures
        final(setup).schemes == old(setup).schemes,
        ({
            let topic = old(setup).topic;
            let before = old(setup).chosen;
            let after = final(setup).chosen;
            &&& topic is FontSize ==> after.font_size == size && next == Next::Ask(Topic::Scheme)
            &&& topic is Scheme ==> next == Next::Ask(Topic::Crt) && (if pick == 0 {
                after.scheme is None
            } else {
                after.scheme is Some && (after.scheme->0)@ == old(setup).schemes@[pick - 1]@
            })
            &&& topic is Crt ==> after.crt == level && next == Next::Ask(Topic::Autocomplete)
            &&& topic is Autocomplete ==> after.autocomplete == (pick == 0) && next == (
            if touch_id_offered {
                Next::Ask(Topic::TouchId)
            } else {
                Next::Finish
            })
            &&& topic is TouchId ==> after.touch_id == (pick == 0) && next is Finish
            &&& !(topic is FontSize) ==> after.font_size == before.font_size
            &&& !(topic is Scheme) ==> (after.scheme is Some <==> before.scheme is Some)
            &&& !(topic is Scheme) && after.scheme is Some ==> (after.scheme->0)@ == (
            before.scheme->0)@
            &&& !(topic is Crt) ==> after.crt == before.crt
            &&& !(topic is Autocomplete) ==> after.autocomplete == before.autocomplete
            &&& !(topic is TouchId) ==> after.touch_id == before.touch_id
        }),
        next is Ask ==> final(setup).topic == next->Ask_0,
        !(next is Ask) ==> final(setup).topic == old(setup).topic,
{
    if pick > 0 {
        assert(name_views(old(setup).schemes@)[pick - 1] == old(setup).schemes@[pick - 1]@);
    }
}

/// Skipping a question skips the setup, and changes nothing.
pub proof fn skipping_changes_nothing(setup: &mut Setup, touch_id_offered: bool, next: Next)
    requires
        call_ensures(Setup::on_answer, (setup, None, touch_id_offered), next),
    ensures
        next is Skip,
        final(setup).topic == old(setup).topic,
        final(setup).schemes == old(setup).schemes,
        final(setup).chosen == old(setup).chosen,
{
}

/// The last screens say under the banner that the shell follows, or how to come
/// back.
pub proof fn last_screens_say_what_follows(finish: String, skip: String)
    requires
        call_ensures(finish_text, (), finish),
        call_ensures(skip_text, (), skip),
    ensures
        ({
            let top = "\x1b[2J\x1b[H"@
                + "\x1b[1m  Welcome to Yutani\x1b[0m\r\n  \x1b[2mLet's set up a few things. Your choices preview live.\x1b[0m\r\n"@;
            &&& finish@ == top
                + "\r\n  \x1b[1mAll set — launching your shell…\x1b[0m\r\n\r\n"@
            &&& skip@ == top
                + "\r\n  \x1b[1mSetup skipped.\x1b[0m \x1b[2mRun \"Run first-time setup…\" from the command palette (Cmd-Shift-P) to try again.\x1b[0m\r\n\r\n"@
        }),
{
}

} // verus!
