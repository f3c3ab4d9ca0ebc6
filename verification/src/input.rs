//! Keyboard handling: key names, the keys bound to commands, and the navigation state that
//! selects, enlarges and steers Mermaid diagrams.
use vstd::prelude::*;

use crate::render::settings::KeyConfig;
use crate::text::{chars_of, lowercase_of, to_lowercase};

verus! {

/// How long a leader key press waits for its direction key, in milliseconds.
pub const LEADER_TIMEOUT_MS: u64 = 750;

/// The largest size step of an enlarged Mermaid diagram.
pub const MAX_EXPANDED_SIZE_STEP: u8 = 3;

/// The keys the viewer reacts to.
#[derive(Debug, Clone, Copy, PartialEq, Eq, Structural)]
pub enum Key {
    A, B, C, D, E, F, G, H, I, J, K, L, M, N, O, P, Q, R, S, T, U, V, W, X, Y, Z,
    Num0, Num1, Num2, Num3, Num4, Num5, Num6, Num7, Num8, Num9,
    Space,
    Enter,
    Escape,
    Colon,
    Slash,
    Minus,
    Plus,
    Equals,
    OpenBracket,
    CloseBracket,
    ArrowUp,
    ArrowDown,
}

/// The key a one-character name stands for.
pub open spec fn char_key(c: char) -> Option<Key> {
    if c == 'a' { Some(Key::A) } else if c == 'b' { Some(Key::B) } else if c == 'c' { Some(Key::C) }
    else if c == 'd' { Some(Key::D) } else if c == 'e' { Some(Key::E) } else if c == 'f' { Some(Key::F) }
    else if c == 'g' { Some(Key::G) } else if c == 'h' { Some(Key::H) } else if c == 'i' { Some(Key::I) }
    else if c == 'j' { Some(Key::J) } else if c == 'k' { Some(Key::K) } else if c == 'l' { Some(Key::L) }
    else if c == 'm' { Some(Key::M) } else if c == 'n' { Some(Key::N) } else if c == 'o' { Some(Key::O) }
    else if c == 'p' { Some(Key::P) } else if c == 'q' { Some(Key::Q) } else if c == 'r' { Some(Key::R) }
    else if c == 's' { Some(Key::S) } else if c == 't' { Some(Key::T) } else if c == 'u' { Some(Key::U) }
    else if c == 'v' { Some(Key::V) } else if c == 'w' { Some(Key::W) } else if c == 'x' { Some(Key::X) }
    else if c == 'y' { Some(Key::Y) } else if c == 'z' { Some(Key::Z) }
    else if c == '0' { Some(Key::Num0) } else if c == '1' { Some(Key::Num1) } else if c == '2' { Some(Key::Num2) }
    else if c == '3' { Some(Key::Num3) } else if c == '4' { Some(Key::Num4) } else if c == '5' { Some(Key::Num5) }
    else if c == '6' { Some(Key::Num6) } else if c == '7' { Some(Key::Num7) } else if c == '8' { Some(Key::Num8) }
    else if c == '9' { Some(Key::Num9) }
    else if c == ':' { Some(Key::Colon) } else if c == '/' { Some(Key::Slash) } else if c == '-' { Some(Key::Minus) }
    else if c == '+' || c == '=' { Some(Key::Plus) }
    else if c == '[' { Some(Key::OpenBracket) } else if c == ']' { Some(Key::CloseBracket) }
    else { None }
}

/// The key a lower-case key name stands for: a single character, or one of the words
/// `space`, `enter`, `return`, `escape`, `esc`, `colon`, `slash`, `minus` and `plus`.
pub open spec fn key_named(name: Seq<char>) -> Option<Key> {
    if name.len() == 1 {
        char_key(name[0])
    } else if name == seq!['s', 'p', 'a', 'c', 'e'] {
        Some(Key::Space)
    } else if name == seq!['e', 'n', 't', 'e', 'r'] || name == seq!['r', 'e', 't', 'u', 'r', 'n'] {
        Some(Key::Enter)
    } else if name == seq!['e', 's', 'c', 'a', 'p', 'e'] || name == seq!['e', 's', 'c'] {
        Some(Key::Escape)
    } else if name == seq!['c', 'o', 'l', 'o', 'n'] {
        Some(Key::Colon)
    } else if name == seq!['s', 'l', 'a', 's', 'h'] {
        Some(Key::Slash)
    } else if name == seq!['m', 'i', 'n', 'u', 's'] {
        Some(Key::Minus)
    } else if name == seq!['p', 'l', 'u', 's'] {
        Some(Key::Plus)
    } else {
        None
    }
}

/// The key words name the keys they say, and each word naming a key that has a character of
/// its own stands for the same key as that character.
pub proof fn lemma_key_words_name_their_keys()
    ensures
        key_named(seq!['s', 'p', 'a', 'c', 'e']) == Some(Key::Space),
        key_named(seq!['e', 'n', 't', 'e', 'r']) == Some(Key::Enter),
        key_named(seq!['r', 'e', 't', 'u', 'r', 'n']) == Some(Key::Enter),
        key_named(seq!['e', 's', 'c', 'a', 'p', 'e']) == Some(Key::Escape),
        key_named(seq!['e', 's', 'c']) == Some(Key::Escape),
        key_named(seq!['c', 'o', 'l', 'o', 'n']) == Some(Key::Colon),
        key_named(seq!['s', 'l', 'a', 's', 'h']) == Some(Key::Slash),
        key_named(seq!['m', 'i', 'n', 'u', 's']) == Some(Key::Minus),
        key_named(seq!['p', 'l', 'u', 's']) == Some(Key::Plus),
        key_named(seq!['c', 'o', 'l', 'o', 'n']) == key_named(seq![':']),
        key_named(seq!['s', 'l', 'a', 's', 'h']) == key_named(seq!['/']),
        key_named(seq!['m', 'i', 'n', 'u', 's']) == key_named(seq!['-']),
        key_named(seq!['p', 'l', 'u', 's']) == key_named(seq!['+']),
{
    assert(seq!['s', 'p', 'a', 'c', 'e'] != seq!['e', 'n', 't', 'e', 'r']);
    assert(seq!['e', 'n', 't', 'e', 'r'] != seq!['s', 'p', 'a', 'c', 'e']) by {
        assert(seq!['e', 'n', 't', 'e', 'r'][0] != seq!['s', 'p', 'a', 'c', 'e'][0]);
    }
    assert(seq!['r', 'e', 't', 'u', 'r', 'n'][0] != seq!['s', 'p', 'a', 'c', 'e'][0]);
    assert(seq!['r', 'e', 't', 'u', 'r', 'n'][0] != seq!['e', 'n', 't', 'e', 'r'][0]);
    assert(seq!['e', 's', 'c', 'a', 'p', 'e'].len() != 5);
    assert(seq!['e', 's', 'c'].len() != 5);
    assert(seq!['c', 'o', 'l', 'o', 'n'][0] != 's' && seq!['c', 'o', 'l', 'o', 'n'][0] != 'e');
    assert(seq!['s', 'l', 'a', 's', 'h'][1] != seq!['s', 'p', 'a', 'c', 'e'][1]);
    assert(seq!['s', 'l', 'a', 's', 'h'][0] != 'e' && seq!['s', 'l', 'a', 's', 'h'][0] != 'c');
    assert(seq!['m', 'i', 'n', 'u', 's'][0] != 's' && seq!['m', 'i', 'n', 'u', 's'][0] != 'e'
        && seq!['m', 'i', 'n', 'u', 's'][0] != 'c');
    assert(seq!['p', 'l', 'u', 's'].len() == 4);
}

fn key_for_char(c: char) -> (k: Option<Key>)
    ensures
        k == char_key(c),
{
    match c {
        'a' => Some(Key::A), 'b' => Some(Key::B), 'c' => Some(Key::C), 'd' => Some(Key::D),
        'e' => Some(Key::E), 'f' => Some(Key::F), 'g' => Some(Key::G), 'h' => Some(Key::H),
        'i' => Some(Key::I), 'j' => Some(Key::J), 'k' => Some(Key::K), 'l' => Some(Key::L),
        'm' => Some(Key::M), 'n' => Some(Key::N), 'o' => Some(Key::O), 'p' => Some(Key::P),
        'q' => Some(Key::Q), 'r' => Some(Key::R), 's' => Some(Key::S), 't' => Some(Key::T),
        'u' => Some(Key::U), 'v' => Some(Key::V), 'w' => Some(Key::W), 'x' => Some(Key::X),
        'y' => Some(Key::Y), 'z' => Some(Key::Z),
        '0' => Some(Key::Num0), '1' => Some(Key::Num1), '2' => Some(Key::Num2), '3' => Some(Key::Num3),
        '4' => Some(Key::Num4), '5' => Some(Key::Num5), '6' => Some(Key::Num6), '7' => Some(Key::Num7),
        '8' => Some(Key::Num8), '9' => Some(Key::Num9),
        ':' => Some(Key::Colon), '/' => Some(Key::Slash), '-' => Some(Key::Minus),
        '+' | '=' => Some(Key::Plus),
        '[' => Some(Key::OpenBracket), ']' => Some(Key::CloseBracket),
        _ => None,
    }
}

/// Whether `chars` spell `word`.
fn is_word(chars: &Vec<char>, word: &str) -> (b: bool)
    ensures
        b == (chars@ == word@),
{
    let w = chars_of(word);
    if chars.len() != w.len() {
        return false;
    }
    let mut i: usize = 0;
    while i < w.len()
        invariant
            chars.len() == w.len(),
            w@ == word@,
            i <= w.len(),
            forall|k: int| 0 <= k < i ==> chars@[k] == w@[k],
        decreases w.len() - i,
    {
        if chars[i] != w[i] {
            return false;
        }
        i += 1;
    }
    assert(chars@ =~= w@);
    true
}

/// The key a lower-case key name stands for.
pub fn key_for_name(name: &str) -> (k: Option<Key>)
    ensures
        k == key_named(name@),
{
    let chars = chars_of(name);
    proof {
        reveal_strlit("space");
        assert("space"@ =~= seq!['s', 'p', 'a', 'c', 'e']);
        reveal_strlit("enter");
        assert("enter"@ =~= seq!['e', 'n', 't', 'e', 'r']);
        reveal_strlit("return");
        assert("return"@ =~= seq!['r', 'e', 't', 'u', 'r', 'n']);
        reveal_strlit("escape");
        assert("escape"@ =~= seq!['e', 's', 'c', 'a', 'p', 'e']);
        reveal_strlit("esc");
        assert("esc"@ =~= seq!['e', 's', 'c']);
        reveal_strlit("colon");
        assert("colon"@ =~= seq!['c', 'o', 'l', 'o', 'n']);
        reveal_strlit("slash");
        assert("slash"@ =~= seq!['s', 'l', 'a', 's', 'h']);
        reveal_strlit("minus");
        assert("minus"@ =~= seq!['m', 'i', 'n', 'u', 's']);
        reveal_strlit("plus");
        assert("plus"@ =~= seq!['p', 'l', 'u', 's']);
    }
    if chars.len() == 1 {
        key_for_char(chars[0])
    } else if is_word(&chars, "space") {
        Some(Key::Space)
    } else if is_word(&chars, "enter") || is_word(&chars, "return") {
        Some(Key::Enter)
    } else if is_word(&chars, "escape") || is_word(&chars, "esc") {
        Some(Key::Escape)
    } else if is_word(&chars, "colon") {
        Some(Key::Colon)
    } else if is_word(&chars, "slash") {
        Some(Key::Slash)
    } else if is_word(&chars, "minus") {
        Some(Key::Minus)
    } else if is_word(&chars, "plus") {
        Some(Key::Plus)
    } else {
        None
    }
}

/// The key a configured key name stands for, ignoring case.
pub fn parse_key(s: &str) -> (k: Option<Key>)
    ensures
        k == key_named(lowercase_of(s@)),
{
    let lower = to_lowercase(s);
    key_for_name(lower.as_str())
}

/// Parsed keybindings derived from `KeyConfig` strings.
#[derive(Debug, Clone, Copy, PartialEq, Eq, Structural)]
pub struct KeyMap {
    pub scroll_down: Key,
    pub scroll_up: Key,
    pub palette: Key,
    pub quit: Key,
    pub toc: Key,
    pub search: Key,
}

pub open spec fn default_key_map() -> KeyMap {
    KeyMap {
        scroll_down: Key::J,
        scroll_up: Key::K,
        palette: Key::Colon,
        quit: Key::Q,
        toc: Key::T,
        search: Key::Slash,
    }
}

/// The key a name stands for, or `default` when the name is not a key.
pub open spec fn key_or(name: Seq<char>, default: Key) -> Key {
    match key_named(lowercase_of(name)) {
        Some(k) => k,
        None => default,
    }
}

impl Default for KeyMap {
    fn default() -> (m: KeyMap)
        ensures
            m == default_key_map(),
    {
        KeyMap {
            scroll_down: Key::J,
            scroll_up: Key::K,
            palette: Key::Colon,
            quit: Key::Q,
            toc: Key::T,
            search: Key::Slash,
        }
    }
}

impl KeyMap {
    /// The bindings a configuration names; a name that is not a key keeps the default binding.
    pub fn from_config(config: &KeyConfig) -> (m: KeyMap)
        ensures
            m.scroll_down == key_or(config.scroll_down@, Key::J),
            m.scroll_up == key_or(config.scroll_up@, Key::K),
            m.palette == key_or(config.palette@, Key::Colon),
            m.quit == key_or(config.quit@, Key::Q),
            m.toc == key_or(config.toc@, Key::T),
            m.search == key_or(config.search@, Key::Slash),
    {
        let defaults = KeyMap::default();
        KeyMap {
            scroll_down: parse_key(config.scroll_down.as_str()).unwrap_or(defaults.scroll_down),
            scroll_up: parse_key(config.scroll_up.as_str()).unwrap_or(defaults.scroll_up),
            palette: parse_key(config.palette.as_str()).unwrap_or(defaults.palette),
            quit: parse_key(config.quit.as_str()).unwrap_or(defaults.quit),
            toc: parse_key(config.toc.as_str()).unwrap_or(defaults.toc),
            search: parse_key(config.search.as_str()).unwrap_or(defaults.search),
        }
    }
}


// ===================== navigation =====================

#[derive(Debug, Clone, Copy, PartialEq, Eq, Structural)]
pub enum NavigationMode {
    Document,
    MermaidControl { index: usize },
}

#[derive(Debug, Clone, Copy, PartialEq, Eq, Structural)]
pub enum DocumentJump {
    Top,
    Bottom,
}

#[derive(Debug, Clone, Copy, PartialEq, Eq, Structural)]
pub enum MermaidViewportCommand {
    Fit,
    ZoomIn,
    ZoomOut,
}

/// A rendered Mermaid diagram the keyboard can select: its index among the diagrams and its
/// vertical extent on the page, in whole pixels.
#[derive(Debug, Clone, Copy, PartialEq, Eq, Structural)]
pub struct ControlTarget {
    pub index: usize,
    pub top: i64,
    pub bottom: i64,
}

#[derive(Debug, Clone, Copy)]
struct ExpandedMermaid {
    index: usize,
    size_step: u8,
}

/// What the keyboard has selected and what it has asked the document to do.
#[derive(Debug)]
pub struct NavigationState {
    pub mode: NavigationMode,
    leader_started: Option<u64>,
    targets: Vec<ControlTarget>,
    viewport: Option<(i64, i64)>,
    reveal_target: Option<usize>,
    document_jump: Option<DocumentJump>,
    source_block: Option<usize>,
    mermaid_command: Option<(usize, MermaidViewportCommand)>,
    expanded_mermaid: Option<ExpandedMermaid>,
    consumed_control_keys: bool,
}

/// The navigation state as values: `viewport` is the visible (top, bottom) of the document
/// and `expanded` the enlarged diagram with its size step.
pub ghost struct NavModel {
    pub mode: NavigationMode,
    pub leader_started: Option<u64>,
    pub targets: Seq<ControlTarget>,
    pub viewport: Option<(i64, i64)>,
    pub reveal_target: Option<usize>,
    pub document_jump: Option<DocumentJump>,
    pub source_block: Option<usize>,
    pub mermaid_command: Option<(usize, MermaidViewportCommand)>,
    pub expanded: Option<(usize, u8)>,
    pub consumed_control_keys: bool,
}

impl View for NavigationState {
    type V = NavModel;

    closed spec fn view(&self) -> NavModel {
        NavModel {
            mode: self.mode,
            leader_started: self.leader_started,
            targets: self.targets@,
            viewport: self.viewport,
            reveal_target: self.reveal_target,
            document_jump: self.document_jump,
            source_block: self.source_block,
            mermaid_command: self.mermaid_command,
            expanded: match self.expanded_mermaid {
                Some(e) => Some((e.index, e.size_step)),
                None => None,
            },
            consumed_control_keys: self.consumed_control_keys,
        }
    }
}

pub open spec fn initial_navigation() -> NavModel {
    NavModel {
        mode: NavigationMode::Document,
        leader_started: None,
        targets: seq![],
        viewport: None,
        reveal_target: None,
        document_jump: None,
        source_block: None,
        mermaid_command: None,
        expanded: None,
        consumed_control_keys: false,
    }
}

/// Where a new target goes: after every target whose top is not below its own.
pub open spec fn insert_position(targets: Seq<ControlTarget>, top: i64, i: int) -> int
    decreases targets.len() - i,
{
    if i >= targets.len() {
        targets.len() as int
    } else if targets[i].top > top {
        i
    } else {
        insert_position(targets, top, i + 1)
    }
}

/// Targets in order of their top edge.
pub open spec fn sorted_by_top(targets: Seq<ControlTarget>) -> bool {
    forall|i: int, j: int| 0 <= i < j < targets.len() ==> targets[i].top <= targets[j].top
}

/// The first target, from `i` on, that shows diagram `index`.
pub open spec fn position_of_index(targets: Seq<ControlTarget>, index: usize, i: int) -> Option<int>
    decreases targets.len() - i,
{
    if i < 0 || i >= targets.len() {
        None
    } else if targets[i].index == index {
        Some(i)
    } else {
        position_of_index(targets, index, i + 1)
    }
}

/// The first target, from `i` on, whose bottom reaches `top`.
pub open spec fn first_reaching(targets: Seq<ControlTarget>, top: i64, i: int) -> Option<int>
    decreases targets.len() - i,
{
    if i < 0 || i >= targets.len() {
        None
    } else if targets[i].bottom >= top {
        Some(i)
    } else {
        first_reaching(targets, top, i + 1)
    }
}

/// The last target before `i` whose top is at or above `bottom`.
pub open spec fn last_starting_by(targets: Seq<ControlTarget>, bottom: i64, i: int) -> Option<int>
    decreases i,
{
    if i <= 0 || i > targets.len() {
        None
    } else if targets[i - 1].top <= bottom {
        Some(i - 1)
    } else {
        last_starting_by(targets, bottom, i - 1)
    }
}

pub open spec fn unwrap_index(o: Option<int>, default: int) -> int {
    match o {
        Some(i) => i,
        None => default,
    }
}

/// The target a direction selects: the next or previous one, cycling, from the selected
/// diagram; or, from the document, the first one reaching the viewport or the last one
/// starting in it.
pub open spec fn selected_target(m: NavModel, direction: i32) -> int {
    let n = m.targets.len() as int;
    match m.mode {
        NavigationMode::MermaidControl { index } => {
            let current = unwrap_index(position_of_index(m.targets, index, 0), 0);
            if direction > 0 {
                (current + 1) % n
            } else {
                (current + n - 1) % n
            }
        },
        NavigationMode::Document => match m.viewport {
            None => if direction > 0 {
                0
            } else {
                n - 1
            },
            Some((top, bottom)) => if direction > 0 {
                unwrap_index(first_reaching(m.targets, top, 0), 0)
            } else {
                unwrap_index(last_starting_by(m.targets, bottom, n), n - 1)
            },
        },
    }
}

pub open spec fn select_target_spec(m: NavModel, direction: i32) -> NavModel {
    if m.targets.len() == 0 {
        m
    } else {
        let index = m.targets[selected_target(m, direction)].index;
        NavModel {
            expanded: match m.expanded {
                Some((_, step)) => Some((index, step)),
                None => None,
            },
            mode: NavigationMode::MermaidControl { index },
            reveal_target: Some(index),
            ..m
        }
    }
}

pub open spec fn apply_leader_keys_spec(m: NavModel, leader_pressed: bool, direction: Option<i32>, now_ms: u64) -> (NavModel, bool) {
    if leader_pressed {
        match direction {
            Some(d) => (select_target_spec(NavModel { leader_started: None, consumed_control_keys: true, ..m }, d), true),
            None => (NavModel { leader_started: Some(now_ms), consumed_control_keys: true, ..m }, true),
        }
    } else if m.leader_started is Some {
        match direction {
            Some(d) => (NavModel { consumed_control_keys: true, ..select_target_spec(NavModel { leader_started: None, ..m }, d) }, true),
            None => (m, true),
        }
    } else {
        (m, false)
    }
}

pub open spec fn open_selected_spec(m: NavModel) -> (NavModel, bool) {
    match m.mode {
        NavigationMode::MermaidControl { index } => match m.expanded {
            Some((current, step)) => if current == index {
                (NavModel { expanded: Some((index, if step >= MAX_EXPANDED_SIZE_STEP { MAX_EXPANDED_SIZE_STEP } else { (step + 1) as u8 })), ..m }, true)
            } else {
                (NavModel { expanded: Some((index, 0)), ..m }, true)
            },
            None => (NavModel { expanded: Some((index, 0)), ..m }, true),
        },
        NavigationMode::Document => (m, false),
    }
}

impl Default for NavigationState {
    fn default() -> (s: NavigationState)
        ensures
            s@ == initial_navigation(),
    {
        NavigationState {
            mode: NavigationMode::Document,
            leader_started: None,
            targets: Vec::new(),
            viewport: None,
            reveal_target: None,
            document_jump: None,
            source_block: None,
            mermaid_command: None,
            expanded_mermaid: None,
            consumed_control_keys: false,
        }
    }
}

impl NavigationState {
    /// Forgets the targets of the previous frame.
    pub fn begin_target_collection(&mut self)
        ensures
            final(self)@ == (NavModel { targets: seq![], ..old(self)@ }),
    {
        self.targets.clear();
    }

    /// Registers a diagram drawn this frame, keeping the targets in order of their top edge;
    /// targets with the same top keep the order they were registered in.
    pub fn register_target(&mut self, index: usize, top: i64, bottom: i64)
        ensures
            final(self)@ == (NavModel {
                targets: old(self)@.targets.insert(
                    insert_position(old(self)@.targets, top, 0),
                    ControlTarget { index, top, bottom },
                ),
                ..old(self)@
            }),
    {
        let mut position: usize = 0;
        while position < self.targets.len() && self.targets[position].top <= top
            invariant
                position <= self.targets.len(),
                insert_position(self.targets@, top, 0) == insert_position(self.targets@, top, position as int),
            decreases self.targets.len() - position,
        {
            position += 1;
        }
        self.targets.insert(position, ControlTarget { index, top, bottom });
    }

    /// Records the visible part of the document, top and bottom.
    pub fn set_viewport(&mut self, top: i64, bottom: i64)
        ensures
            final(self)@ == (NavModel { viewport: Some((top, bottom)), ..old(self)@ }),
    {
        self.viewport = Some((top, bottom));
    }

    pub fn is_selected(&self, index: usize) -> (b: bool)
        ensures
            b == (self@.mode == NavigationMode::MermaidControl { index }),
    {
        self.mode == NavigationMode::MermaidControl { index }
    }

    pub fn select_from_click(&mut self, index: usize)
        ensures
            final(self)@ == (NavModel {
                mode: NavigationMode::MermaidControl { index },
                leader_started: None,
                ..old(self)@
            }),
    {
        self.mode = NavigationMode::MermaidControl { index };
        self.leader_started = None;
    }

    /// Whether diagram `index` was just selected and should be scrolled into view; answers
    /// yes once.
    pub fn should_reveal(&mut self, index: usize) -> (b: bool)
        ensures
            b == (old(self)@.reveal_target == Some(index)),
            final(self)@ == (NavModel {
                reveal_target: if b { None } else { old(self)@.reveal_target },
                ..old(self)@
            }),
    {
        if self.reveal_target == Some(index) {
            self.reveal_target = None;
            true
        } else {
            false
        }
    }

    pub fn control_keys_consumed(&self) -> (b: bool)
        ensures
            b == self@.consumed_control_keys,
    {
        self.consumed_control_keys
    }

    pub fn request_document_jump(&mut self, jump: DocumentJump)
        ensures
            final(self)@ == (NavModel { document_jump: Some(jump), ..old(self)@ }),
    {
        self.document_jump = Some(jump);
    }

    pub fn take_document_jump(&mut self) -> (j: Option<DocumentJump>)
        ensures
            j == old(self)@.document_jump,
            final(self)@ == (NavModel { document_jump: None, ..old(self)@ }),
    {
        self.document_jump.take()
    }

    pub fn request_source_block(&mut self, index: usize)
        ensures
            final(self)@ == (NavModel { source_block: Some(index), ..old(self)@ }),
    {
        self.source_block = Some(index);
    }

    pub fn take_source_block(&mut self) -> (b: Option<usize>)
        ensures
            b == old(self)@.source_block,
            final(self)@ == (NavModel { source_block: None, ..old(self)@ }),
    {
        self.source_block.take()
    }

    pub fn has_pending_source_block(&self) -> (b: bool)
        ensures
            b == self@.source_block is Some,
    {
        self.source_block.is_some()
    }

    /// Selects the Mermaid diagram the synced source block holds, or returns to the document.
    pub fn apply_synced_block_mode(&mut self, mermaid_index: Option<usize>)
        ensures
            final(self)@ == (NavModel {
                mode: match mermaid_index {
                    Some(index) => NavigationMode::MermaidControl { index },
                    None => NavigationMode::Document,
                },
                leader_started: None,
                ..old(self)@
            }),
    {
        self.mode = match mermaid_index {
            Some(index) => NavigationMode::MermaidControl { index },
            None => NavigationMode::Document,
        };
        self.leader_started = None;
    }

    /// Selects the next (`direction > 0`) or previous diagram.
    pub fn select_target(&mut self, direction: i32)
        ensures
            final(self)@ == select_target_spec(old(self)@, direction),
    {
        let n = self.targets.len();
        if n == 0 {
            return;
        }
        let selected: usize = match self.mode {
            NavigationMode::MermaidControl { index } => {
                let mut k: usize = 0;
                while k < n && self.targets[k].index != index
                    invariant
                        k <= n == self.targets.len(),
                        position_of_index(self.targets@, index, 0) == position_of_index(self.targets@, index, k as int),
                    decreases n - k,
                {
                    k += 1;
                }
                let current = if k < n { k } else { 0 };
                assert(current as int == unwrap_index(position_of_index(self.targets@, index, 0), 0));
                if direction > 0 {
                    (current + 1) % n
                } else if current == 0 {
                    assert((current + n - 1) % (n as int) == n - 1) by (nonlinear_arith)
                        requires current == 0, n > 0;
                    n - 1
                } else {
                    assert((current + n - 1) % (n as int) == current - 1) by (nonlinear_arith)
                        requires 0 < current < n;
                    current - 1
                }
            },
            NavigationMode::Document => match self.viewport {
                None => if direction > 0 { 0 } else { n - 1 },
                Some((top, bottom)) => if direction > 0 {
                    let mut k: usize = 0;
                    while k < n && self.targets[k].bottom < top
                        invariant
                            k <= n == self.targets.len(),
                            first_reaching(self.targets@, top, 0) == first_reaching(self.targets@, top, k as int),
                        decreases n - k,
                    {
                        k += 1;
                    }
                    if k < n { k } else { 0 }
                } else {
                    let mut k: usize = n;
                    while k > 0 && self.targets[k - 1].top > bottom
                        invariant
                            k <= n == self.targets.len(),
                            last_starting_by(self.targets@, bottom, n as int) == last_starting_by(self.targets@, bottom, k as int),
                        decreases k,
                    {
                        k -= 1;
                    }
                    if k > 0 { k - 1 } else { n - 1 }
                },
            },
        };
        assert(selected as int == selected_target(old(self)@, direction));
        let index = self.targets[selected].index;
        if let Some(expanded) = self.expanded_mermaid {
            self.expanded_mermaid = Some(ExpandedMermaid { index, size_step: expanded.size_step });
        }
        self.mode = NavigationMode::MermaidControl { index };
        self.reveal_target = Some(index);
    }

    /// Selects the next or previous diagram; says whether there was any to select.
    pub fn select_relative_target(&mut self, direction: i32) -> (b: bool)
        ensures
            b == (old(self)@.targets.len() > 0),
            final(self)@ == select_target_spec(old(self)@, direction),
    {
        if self.targets.len() == 0 {
            return false;
        }
        self.select_target(direction);
        true
    }

    /// Queues a viewport command for the selected diagram; says whether one is selected.
    pub fn request_mermaid_command(&mut self, command: MermaidViewportCommand) -> (b: bool)
        ensures
            b == old(self)@.mode is MermaidControl,
            final(self)@ == match old(self)@.mode {
                NavigationMode::MermaidControl { index } => NavModel {
                    mermaid_command: Some((index, command)),
                    ..old(self)@
                },
                NavigationMode::Document => old(self)@,
            },
    {
        match self.mode {
            NavigationMode::MermaidControl { index } => {
                self.mermaid_command = Some((index, command));
                true
            },
            NavigationMode::Document => false,
        }
    }

    /// Hands out the queued viewport command if it is for diagram `index`.
    pub fn take_mermaid_command(&mut self, index: usize) -> (c: Option<MermaidViewportCommand>)
        ensures
            match old(self)@.mermaid_command {
                Some((target, command)) => if target == index {
                    c == Some(command) && final(self)@ == (NavModel { mermaid_command: None, ..old(self)@ })
                } else {
                    c is None && final(self)@ == old(self)@
                },
                None => c is None && final(self)@ == old(self)@,
            },
    {
        match self.mermaid_command {
            Some((target, command)) => if target == index {
                self.mermaid_command = None;
                Some(command)
            } else {
                None
            },
            None => None,
        }
    }

    /// Whether diagram `index` is shown enlarged.
    pub fn is_expanded(&self, index: usize) -> (b: bool)
        ensures
            b == (self@.expanded matches Some((i, _)) && i == index),
    {
        match self.expanded_mermaid {
            Some(expanded) => expanded.index == index,
            None => false,
        }
    }

    /// The size step of diagram `index` when it is shown enlarged.
    pub fn expanded_size_step(&self, index: usize) -> (s: Option<u8>)
        ensures
            s == match self@.expanded {
                Some((i, step)) => if i == index { Some(step) } else { None },
                None => None,
            },
    {
        match self.expanded_mermaid {
            Some(expanded) => if expanded.index == index { Some(expanded.size_step) } else { None },
            None => None,
        }
    }

    /// Enlarges the selected diagram, or grows it one step up to the largest; says whether a
    /// diagram was selected.
    pub fn open_selected_mermaid(&mut self) -> (b: bool)
        ensures
            (final(self)@, b) == open_selected_spec(old(self)@),
    {
        let index = match self.mode {
            NavigationMode::MermaidControl { index } => index,
            NavigationMode::Document => {
                return false;
            },
        };
        if let Some(expanded) = self.expanded_mermaid {
            if expanded.index == index {
                let step = if expanded.size_step >= MAX_EXPANDED_SIZE_STEP {
                    MAX_EXPANDED_SIZE_STEP
                } else {
                    expanded.size_step + 1
                };
                self.expanded_mermaid = Some(ExpandedMermaid { index, size_step: step });
                return true;
            }
        }
        self.expanded_mermaid = Some(ExpandedMermaid { index, size_step: 0 });
        true
    }

    /// Leaves the enlarged view; says whether one was shown.
    pub fn close_expanded_mermaid(&mut self) -> (b: bool)
        ensures
            b == old(self)@.expanded is Some,
            final(self)@ == (NavModel { expanded: None, ..old(self)@ }),
    {
        self.expanded_mermaid.take().is_some()
    }

    /// Applies the leader key and a direction key pressed at time `now_ms`; says whether the
    /// keys were taken by the leader chord.
    pub fn apply_leader_keys(&mut self, leader_pressed: bool, direction: Option<i32>, now_ms: u64) -> (b: bool)
        ensures
            (final(self)@, b) == apply_leader_keys_spec(old(self)@, leader_pressed, direction, now_ms),
    {
        if leader_pressed {
            self.leader_started = Some(now_ms);
            self.consumed_control_keys = true;
            if let Some(direction) = direction {
                self.leader_started = None;
                self.select_target(direction);
            }
            return true;
        }
        if self.leader_started.is_some() {
            if let Some(direction) = direction {
                self.leader_started = None;
                self.select_target(direction);
                self.consumed_control_keys = true;
            }
            return true;
        }
        false
    }
}


// ===================== laws of navigation =====================

proof fn lemma_insert_position_bounds(targets: Seq<ControlTarget>, top: i64, i: int)
    requires
        0 <= i <= targets.len(),
        forall|k: int| 0 <= k < i ==> #[trigger] targets[k].top <= top,
    ensures
        i <= insert_position(targets, top, i) <= targets.len(),
        forall|k: int| 0 <= k < insert_position(targets, top, i) ==> #[trigger] targets[k].top <= top,
        insert_position(targets, top, i) < targets.len() ==> targets[insert_position(targets, top, i)].top > top,
    decreases targets.len() - i,
{
    if i < targets.len() && targets[i].top <= top {
        lemma_insert_position_bounds(targets, top, i + 1);
    }
}

/// Registering a target keeps the targets in order of their top edge.
pub proof fn lemma_register_keeps_targets_sorted(targets: Seq<ControlTarget>, index: usize, top: i64, bottom: i64)
    requires
        sorted_by_top(targets),
    ensures
        sorted_by_top(targets.insert(insert_position(targets, top, 0), ControlTarget { index, top, bottom })),
{
    lemma_insert_position_bounds(targets, top, 0);
    let p = insert_position(targets, top, 0);
    let t = ControlTarget { index, top, bottom };
    let r = targets.insert(p, t);
    assert forall|i: int, j: int| 0 <= i < j < r.len() implies r[i].top <= r[j].top by {
        if j < p {
        } else if j == p {
            assert(r[i] == targets[i]);
        } else if i == p {
            assert(r[j] == targets[j - 1]);
            assert(targets[p].top > top);
            assert(targets[p].top <= targets[j - 1].top);
        } else if i < p {
            assert(r[j] == targets[j - 1]);
            assert(targets[i].top <= top);
            if p < targets.len() {
                assert(targets[p].top <= targets[j - 1].top);
            }
        } else {
            assert(r[i] == targets[i - 1]);
            assert(r[j] == targets[j - 1]);
        }
    }
}

/// The leader key and a direction key select the same diagram whether they are pressed in
/// one frame or one after the other.
pub proof fn lemma_leader_prefix_matches_chord(m: NavModel, direction: i32, pressed_at: u64)
    requires
        m.leader_started is None,
    ensures
        ({
            let (after_leader, taken1) = apply_leader_keys_spec(m, true, None, pressed_at);
            let (after_direction, taken2) = apply_leader_keys_spec(after_leader, false, Some(direction), pressed_at);
            &&& taken1 && taken2
            &&& after_direction == apply_leader_keys_spec(m, true, Some(direction), pressed_at).0
        }),
{
    let a = NavModel { leader_started: Some(pressed_at), consumed_control_keys: true, ..m };
    let b = NavModel { leader_started: None, consumed_control_keys: true, ..m };
    assert(NavModel { leader_started: None, ..a } == b);
}

/// Whether no two targets show the same diagram.
pub open spec fn distinct_indices(targets: Seq<ControlTarget>) -> bool {
    forall|i: int, j: int| 0 <= i < j < targets.len() ==> targets[i].index != targets[j].index
}

proof fn lemma_position_of_index_found(targets: Seq<ControlTarget>, p: int, i: int)
    requires
        distinct_indices(targets),
        0 <= i <= p < targets.len(),
    ensures
        position_of_index(targets, targets[p].index, i) == Some(p),
    decreases p - i,
{
    if i < p {
        assert(targets[i].index != targets[p].index);
        lemma_position_of_index_found(targets, p, i + 1);
    }
}

/// With a diagram selected, selecting the next one and then the previous one selects it
/// again.
pub proof fn lemma_next_then_previous_selects_again(m: NavModel, p: int)
    requires
        distinct_indices(m.targets),
        0 <= p < m.targets.len(),
        m.mode == (NavigationMode::MermaidControl { index: m.targets[p].index }),
    ensures
        select_target_spec(select_target_spec(m, 1i32), -1i32).mode == m.mode,
{
    let n = m.targets.len() as int;
    lemma_position_of_index_found(m.targets, p, 0);
    let q = (p + 1) % n;
    assert(0 <= q < n) by (nonlinear_arith)
        requires n > 0, 0 <= p < n, q == (p + 1) % n;
    let m1 = select_target_spec(m, 1i32);
    assert(m1.mode == NavigationMode::MermaidControl { index: m.targets[q].index });
    assert(m1.targets == m.targets);
    lemma_position_of_index_found(m.targets, q, 0);
    assert((q + n - 1) % n == p) by (nonlinear_arith)
        requires n > 0, 0 <= p < n, q == (p + 1) % n;
}

/// Enlarging the selected diagram never goes past the largest size step.
pub proof fn lemma_expanded_step_bounded(m: NavModel)
    requires
        m.expanded matches Some((_, step)) ==> step <= MAX_EXPANDED_SIZE_STEP,
    ensures
        open_selected_spec(m).0.expanded matches Some((_, step)) ==> step <= MAX_EXPANDED_SIZE_STEP,
{
}

/// A requested document jump is handed out once: the first take gives it, the next none.
pub proof fn lemma_document_jump_taken_once(m: NavModel, jump: DocumentJump)
    ensures
        ({
            let requested = NavModel { document_jump: Some(jump), ..m };
            let after_take = NavModel { document_jump: None, ..requested };
            &&& requested.document_jump == Some(jump)
            &&& after_take.document_jump is None
            &&& after_take == (NavModel { document_jump: None, ..m })
        }),
{
}

// ===================== one frame of keyboard input =====================

/// What the keyboard did in one frame.
#[derive(Debug)]
pub struct FrameInput {
    /// A text field has the keyboard.
    pub wants_keyboard_input: bool,
    /// Keys pressed this frame.
    pub pressed: Vec<Key>,
    /// Keys held down this frame.
    pub down: Vec<Key>,
}

/// Which smooth-scroll directions apply this frame.
#[derive(Debug, Clone, Copy, PartialEq, Eq, Structural)]
pub struct ScrollKeys {
    pub down: bool,
    pub up: bool,
}

#[derive(Debug, Clone, Copy, PartialEq, Eq, Structural)]
pub enum InputAction {
    OpenPalette,
    ToggleSettings,
    CloseWindow,
    HeadingJump(i32),
    ZoomIn,
    ZoomOut,
    ZoomReset,
}

pub open spec fn no_scroll() -> ScrollKeys {
    ScrollKeys { down: false, up: false }
}

/// Whether `key` is among `keys`.
fn has_key(keys: &Vec<Key>, key: Key) -> (b: bool)
    ensures
        b == keys@.contains(key),
{
    let mut i: usize = 0;
    while i < keys.len()
        invariant
            i <= keys.len(),
            forall|k: int| 0 <= k < i ==> keys@[k] != key,
        decreases keys.len() - i,
    {
        if keys[i] == key {
            return true;
        }
        i += 1;
    }
    false
}

/// The direction key pressed this frame, down before up.
pub open spec fn direction_pressed(input: FrameInput, keys: KeyMap) -> Option<i32> {
    if input.pressed@.contains(keys.scroll_down) {
        Some(1i32)
    } else if input.pressed@.contains(keys.scroll_up) {
        Some(-1i32)
    } else {
        None
    }
}

/// Whether a leader press started at `started` has run out at `now_ms`.
pub open spec fn leader_expired(started: Option<u64>, now_ms: u64) -> bool {
    match started {
        Some(t) => now_ms > t + LEADER_TIMEOUT_MS,
        None => false,
    }
}

pub open spec fn navigation_input_spec(m: NavModel, input: FrameInput, keys: KeyMap, now_ms: u64) -> (NavModel, ScrollKeys) {
    let m1 = NavModel { consumed_control_keys: false, ..m };
    if input.wants_keyboard_input {
        (NavModel { leader_started: None, ..m1 }, no_scroll())
    } else {
        let m2 = if leader_expired(m1.leader_started, now_ms) {
            NavModel { leader_started: None, ..m1 }
        } else {
            m1
        };
        let (m3, taken) = apply_leader_keys_spec(
            m2,
            input.pressed@.contains(Key::Space),
            direction_pressed(input, keys),
            now_ms,
        );
        if taken {
            (m3, no_scroll())
        } else if m3.mode == NavigationMode::Document {
            (m3, ScrollKeys {
                down: input.down@.contains(keys.scroll_down),
                up: input.down@.contains(keys.scroll_up),
            })
        } else {
            (m3, no_scroll())
        }
    }
}

/// Escape closes the enlarged view, else leaves the selected diagram, else toggles settings.
pub open spec fn escape_spec(m: NavModel, actions: Seq<InputAction>) -> (NavModel, Seq<InputAction>) {
    if m.expanded is Some {
        (NavModel { expanded: None, consumed_control_keys: true, ..m }, actions)
    } else if m.mode is MermaidControl {
        (NavModel { mode: NavigationMode::Document, leader_started: None, consumed_control_keys: true, ..m }, actions)
    } else {
        (m, actions.push(InputAction::ToggleSettings))
    }
}

/// The zoom actions a frame asks for.
pub open spec fn zoom_actions(input: FrameInput) -> Seq<InputAction> {
    (if input.pressed@.contains(Key::Plus) || input.pressed@.contains(Key::Equals) {
        seq![InputAction::ZoomIn]
    } else {
        seq![]
    }) + (if input.pressed@.contains(Key::Minus) {
        seq![InputAction::ZoomOut]
    } else {
        seq![]
    }) + (if input.pressed@.contains(Key::Num0) {
        seq![InputAction::ZoomReset]
    } else {
        seq![]
    })
}

/// What one frame of keys does: the actions for the viewer, the new navigation state and the
/// smooth-scroll directions that apply.
pub open spec fn collect_actions_spec(m: NavModel, input: FrameInput, keys: KeyMap, now_ms: u64) -> (Seq<InputAction>, NavModel, ScrollKeys) {
    let free = !input.wants_keyboard_input;
    if free && input.pressed@.contains(keys.palette) {
        (seq![InputAction::OpenPalette], m, no_scroll())
    } else {
        let (m1, a1) = if input.pressed@.contains(Key::Escape) {
            escape_spec(m, seq![])
        } else {
            (m, seq![])
        };
        let a2 = if free && input.pressed@.contains(keys.quit) {
            a1.push(InputAction::CloseWindow)
        } else {
            a1
        };
        let m2 = if free && input.pressed@.contains(Key::Enter) {
            let (m_open, opened) = open_selected_spec(m1);
            if opened {
                NavModel { consumed_control_keys: true, ..m_open }
            } else {
                m_open
            }
        } else {
            m1
        };
        let a3 = if free && m2.mode == NavigationMode::Document {
            if input.pressed@.contains(Key::CloseBracket) {
                a2.push(InputAction::HeadingJump(1i32))
            } else if input.pressed@.contains(Key::OpenBracket) {
                a2.push(InputAction::HeadingJump(-1i32))
            } else {
                a2
            }
        } else {
            a2
        };
        let a4 = if free {
            a3 + zoom_actions(input)
        } else {
            a3
        };
        let (m3, scroll) = navigation_input_spec(m2, input, keys, now_ms);
        (a4, m3, scroll)
    }
}

impl NavigationState {
    /// Handles the navigation keys of one frame at time `now_ms` and says which smooth-scroll
    /// directions apply.
    pub fn handle_navigation_input(&mut self, input: &FrameInput, keys: &KeyMap, now_ms: u64) -> (scroll: ScrollKeys)
        ensures
            (final(self)@, scroll) == navigation_input_spec(old(self)@, *input, *keys, now_ms),
    {
        self.consumed_control_keys = false;
        if input.wants_keyboard_input {
            self.leader_started = None;
            return ScrollKeys { down: false, up: false };
        }
        if let Some(started) = self.leader_started {
            if now_ms > started && now_ms - started > LEADER_TIMEOUT_MS {
                self.leader_started = None;
            }
        }
        let leader_pressed = has_key(&input.pressed, Key::Space);
        let direction = if has_key(&input.pressed, keys.scroll_down) {
            Some(1i32)
        } else if has_key(&input.pressed, keys.scroll_up) {
            Some(-1i32)
        } else {
            None
        };
        if self.apply_leader_keys(leader_pressed, direction, now_ms) {
            return ScrollKeys { down: false, up: false };
        }
        if self.mode == NavigationMode::Document {
            ScrollKeys { down: has_key(&input.down, keys.scroll_down), up: has_key(&input.down, keys.scroll_up) }
        } else {
            ScrollKeys { down: false, up: false }
        }
    }
}

/// Turns one frame of keys into viewer actions, updating the navigation state; also says which
/// smooth-scroll directions apply.
#[verifier::rlimit(40)]
pub fn collect_actions(input: &FrameInput, navigation: &mut NavigationState, keys: &KeyMap, now_ms: u64) -> (r: (Vec<InputAction>, ScrollKeys))
    ensures
        (r.0@, final(navigation)@, r.1) == collect_actions_spec(old(navigation)@, *input, *keys, now_ms),
{
    let mut actions: Vec<InputAction> = Vec::new();
    let free = !input.wants_keyboard_input;
    if free && has_key(&input.pressed, keys.palette) {
        actions.push(InputAction::OpenPalette);
        return (actions, ScrollKeys { down: false, up: false });
    }
    if has_key(&input.pressed, Key::Escape) {
        if navigation.close_expanded_mermaid() {
            navigation.consumed_control_keys = true;
        } else if navigation.mode != NavigationMode::Document {
            navigation.mode = NavigationMode::Document;
            navigation.leader_started = None;
            navigation.consumed_control_keys = true;
        } else {
            actions.push(InputAction::ToggleSettings);
        }
    }
    if free && has_key(&input.pressed, keys.quit) {
        actions.push(InputAction::CloseWindow);
    }
    if free && has_key(&input.pressed, Key::Enter) && navigation.open_selected_mermaid() {
        navigation.consumed_control_keys = true;
    }
    if free && navigation.mode == NavigationMode::Document {
        if has_key(&input.pressed, Key::CloseBracket) {
            actions.push(InputAction::HeadingJump(1));
        } else if has_key(&input.pressed, Key::OpenBracket) {
            actions.push(InputAction::HeadingJump(-1));
        }
    }
    if free {
        let ghost before = actions@;
        let zoom_in = has_key(&input.pressed, Key::Plus) || has_key(&input.pressed, Key::Equals);
        let zoom_out = has_key(&input.pressed, Key::Minus);
        let zoom_reset = has_key(&input.pressed, Key::Num0);
        if zoom_in {
            actions.push(InputAction::ZoomIn);
        }
        if zoom_out {
            actions.push(InputAction::ZoomOut);
        }
        if zoom_reset {
            actions.push(InputAction::ZoomReset);
        }
        assert(actions@ =~= before + zoom_actions(*input));
    }
    let scroll = navigation.handle_navigation_input(input, keys, now_ms);
    (actions, scroll)
}

} // verus!