//! The form controller: one normalized input signal at a time is routed to a
//! focus-ring advance, an edit of the focused text buffer, or a registry
//! mutation, and the controller owns the exit-requested flag.
//!
//! Every transition is total: unrecognized signals, erasing from an empty
//! buffer and removing from an empty registry are all defined as no-ops,
//! never failures.

use vstd::prelude::*;

use crate::buffer::spec_append;
use crate::buffer::spec_remove_last;
use crate::buffer::TextBuffer;
use crate::focus::ring_size;
use crate::focus::spec_advance;
use crate::focus::spec_advance_n;
use crate::focus::FocusedField;
use crate::registry::lemma_upsert_sorted;
use crate::registry::sorted_by_label;
use crate::registry::spec_split;
use crate::registry::spec_upsert;
use crate::registry::EntryView;
use crate::registry::ExtensionEntry;
use crate::registry::ExtensionRegistry;

verus! {

/// A normalized input signal, as the terminal provider hands them over:
/// cancel, advance-focus, a printable character, erase, confirm, or any
/// other raw event, which the form ignores.
#[derive(Clone, Copy, Debug, PartialEq, Eq, Structural)]
pub enum InputSignal {
    Cancel,
    AdvanceFocus,
    Printable(char),
    Erase,
    Confirm,
    Other,
}

/// The mathematical state of the form: the three buffers, the registry in
/// ascending label order, the focused target, and the exit flag.
pub struct AppView {
    pub monitoring_dir: Seq<char>,
    pub dir_buffer: Seq<char>,
    pub ext_buffer: Seq<char>,
    pub registry: Seq<EntryView>,
    pub focused_field: FocusedField,
    pub exit: bool,
}

impl AppView {
    /// The registry invariant carried through every transition.
    pub open spec fn wf(self) -> bool {
        sorted_by_label(self.registry)
    }
}

/// The state after a signal that is neither cancel nor advance-focus: a
/// printable character or an erase edits the focused buffer, confirm on the
/// add button upserts the registry from the label and extensions buffers,
/// confirm on the remove button removes the highest key, and everything
/// else changes nothing.
pub open spec fn spec_typing(s: AppView, sig: InputSignal) -> AppView {
    match s.focused_field {
        FocusedField::Directory => match sig {
            InputSignal::Printable(c) => AppView {
                monitoring_dir: spec_append(s.monitoring_dir, c),
                ..s
            },
            InputSignal::Erase => AppView {
                monitoring_dir: spec_remove_last(s.monitoring_dir),
                ..s
            },
            _ => s,
        },
        FocusedField::MiniDirectory => match sig {
            InputSignal::Printable(c) => AppView { dir_buffer: spec_append(s.dir_buffer, c), ..s },
            InputSignal::Erase => AppView { dir_buffer: spec_remove_last(s.dir_buffer), ..s },
            _ => s,
        },
        FocusedField::MiniExtension => match sig {
            InputSignal::Printable(c) => AppView { ext_buffer: spec_append(s.ext_buffer, c), ..s },
            InputSignal::Erase => AppView { ext_buffer: spec_remove_last(s.ext_buffer), ..s },
            _ => s,
        },
        FocusedField::UpprMiniButton => match sig {
            InputSignal::Confirm => AppView {
                registry: spec_upsert(s.registry, s.dir_buffer, spec_split(s.ext_buffer)),
                ..s
            },
            _ => s,
        },
        FocusedField::LwrMiniButton => match sig {
            InputSignal::Confirm => AppView {
                registry: if s.registry.len() == 0 {
                    s.registry
                } else {
                    s.registry.drop_last()
                },
                ..s
            },
            _ => s,
        },
    }
}

/// One transition of the state machine: cancel requests the exit from any
/// state, advance-focus moves to the next target of the ring, and every
/// other signal is handled against the focused target by [`spec_typing`].
pub open spec fn spec_step(s: AppView, sig: InputSignal) -> AppView {
    match sig {
        InputSignal::Cancel => AppView { exit: true, ..s },
        InputSignal::AdvanceFocus => AppView { focused_field: spec_advance(s.focused_field), ..s },
        _ => spec_typing(s, sig),
    }
}

/// The state after a whole sequence of signals, first signal first.
pub open spec fn run_signals(s: AppView, sigs: Seq<InputSignal>) -> AppView
    decreases sigs.len(),
{
    if sigs.len() == 0 {
        s
    } else {
        run_signals(spec_step(s, sigs[0]), sigs.drop_first())
    }
}

/// The form: three text buffers, the registry, the focused target and the
/// exit flag, created once with the seeded defaults and mutated by one input
/// event at a time.
#[derive(Debug)]
pub struct App {
    pub monitoring_dir: TextBuffer,
    pub dir_buffer: TextBuffer,
    pub ext_buffer: TextBuffer,
    pub file_dir_map: ExtensionRegistry,
    pub focused_field: FocusedField,
    pub exit: bool,
}

impl View for App {
    type V = AppView;

    open spec fn view(&self) -> AppView {
        AppView {
            monitoring_dir: self.monitoring_dir@,
            dir_buffer: self.dir_buffer@,
            ext_buffer: self.ext_buffer@,
            registry: self.file_dir_map@,
            focused_field: self.focused_field,
            exit: self.exit,
        }
    }
}

impl App {
    /// The registry stays sorted by label.
    pub open spec fn wf(&self) -> bool {
        self@.wf()
    }

    /// Handles a signal while a target other than cancel and advance-focus
    /// is in play: edits the focused buffer or fires the focused button.
    pub fn handle_user_typing(&mut self, sig: InputSignal)
        ensures
            final(self)@ == spec_typing(old(self)@, sig),
            old(self).wf() ==> final(self).wf(),
    {
        match self.focused_field {
            FocusedField::Directory => {
                match sig {
                    InputSignal::Printable(c) => {
                        self.monitoring_dir.append_char(c);
                    },
                    InputSignal::Erase => {
                        self.monitoring_dir.remove_last();
                    },
                    _ => {},
                }
            },
            FocusedField::MiniDirectory => {
                match sig {
                    InputSignal::Printable(c) => {
                        self.dir_buffer.append_char(c);
                    },
                    InputSignal::Erase => {
                        self.dir_buffer.remove_last();
                    },
                    _ => {},
                }
            },
            FocusedField::MiniExtension => {
                match sig {
                    InputSignal::Printable(c) => {
                        self.ext_buffer.append_char(c);
                    },
                    InputSignal::Erase => {
                        self.ext_buffer.remove_last();
                    },
                    _ => {},
                }
            },
            FocusedField::UpprMiniButton => {
                match sig {
                    InputSignal::Confirm => {
                        self.emit_type_extns();
                    },
                    _ => {},
                }
            },
            FocusedField::LwrMiniButton => {
                match sig {
                    InputSignal::Confirm => {
                        self.file_dir_map.remove_highest_key();
                    },
                    _ => {},
                }
            },
        }
    }

    /// Writes the label and extensions buffers into the registry: the
    /// extensions text is split on commas and the entry for the label is
    /// inserted or overwritten. The buffers themselves are left as typed.
    pub fn emit_type_extns(&mut self)
        ensures
            final(self)@ == (AppView {
                registry: spec_upsert(
                    old(self)@.registry,
                    old(self)@.dir_buffer,
                    spec_split(old(self)@.ext_buffer),
                ),
                ..old(self)@
            }),
            old(self).wf() ==> final(self).wf(),
    {
        self.file_dir_map.upsert(&self.dir_buffer.chars, &self.ext_buffer.chars);
    }

    /// Routes one signal: cancel requests the exit from any state,
    /// advance-focus moves the focus along the ring, and any other signal
    /// goes to the focused target.
    pub fn handle_key_event(&mut self, sig: InputSignal)
        ensures
            final(self)@ == spec_step(old(self)@, sig),
            old(self).wf() ==> final(self).wf(),
    {
        match sig {
            InputSignal::Cancel => {
                self.exit = true;
            },
            InputSignal::AdvanceFocus => {
                self.focused_field = self.focused_field.advance();
            },
            _ => {
                self.handle_user_typing(sig);
            },
        }
    }
}

/// The label of the seeded registry entry.
pub open spec fn seed_label() -> Seq<char> {
    seq!['A', 'u', 'd', 'i', 'o']
}

/// The extension lists of the seeded registry entry.
pub open spec fn seed_extensions() -> Seq<Seq<char>> {
    seq![seq!['m', 'p', '3'], seq!['w', 'a', 'v']]
}

/// The state the form starts from: path "/", empty label and extensions
/// buffers, the registry seeded with the one audio entry, the path field
/// focused, and no exit requested.
pub open spec fn initial_state() -> AppView {
    AppView {
        monitoring_dir: seq!['/'],
        dir_buffer: Seq::<char>::empty(),
        ext_buffer: Seq::<char>::empty(),
        registry: seq![EntryView { label: seed_label(), extensions: seed_extensions() }],
        focused_field: FocusedField::Directory,
        exit: false,
    }
}

impl Default for App {
    /// The seeded form of process start.
    fn default() -> (r: App)
        ensures
            r@ == initial_state(),
            r.wf(),
    {
        let mut path: Vec<char> = Vec::new();
        path.push('/');
        let mut label: Vec<char> = Vec::new();
        label.push('A');
        label.push('u');
        label.push('d');
        label.push('i');
        label.push('o');
        let mut mp3: Vec<char> = Vec::new();
        mp3.push('m');
        mp3.push('p');
        mp3.push('3');
        let mut wav: Vec<char> = Vec::new();
        wav.push('w');
        wav.push('a');
        wav.push('v');
        let mut exts: Vec<Vec<char>> = Vec::new();
        exts.push(mp3);
        exts.push(wav);
        let seed = ExtensionEntry { label, extensions: exts };
        proof {
            assert(seed@.label =~= seed_label());
            assert(seed@.extensions =~~= seed_extensions());
        }
        let r = App {
            monitoring_dir: TextBuffer { chars: path },
            dir_buffer: TextBuffer::new(),
            ext_buffer: TextBuffer::new(),
            file_dir_map: ExtensionRegistry::from_entry(seed),
            focused_field: FocusedField::Directory,
            exit: false,
        };
        proof {
            assert(r@.monitoring_dir =~= initial_state().monitoring_dir);
            assert(r@.registry =~= initial_state().registry);
        }
        r
    }
}

/// A transition out of a well-formed state leaves the state well formed:
/// the registry stays sorted by label.
pub proof fn lemma_step_preserves_wf(s: AppView, sig: InputSignal)
    requires
        s.wf(),
    ensures
        spec_step(s, sig).wf(),
{
    if s.focused_field is UpprMiniButton && sig is Confirm {
        lemma_upsert_sorted(s.registry, s.dir_buffer, spec_split(s.ext_buffer));
    }
}

/// Cyclic closure of the focus: a run of advance-focus signals as long as
/// the ring returns the focus to its starting target and leaves the whole
/// state as it was.
pub proof fn lemma_focus_cycle(s: AppView, sigs: Seq<InputSignal>)
    requires
        sigs.len() == ring_size(),
        forall|i: int| 0 <= i < sigs.len() ==> sigs[i] == InputSignal::AdvanceFocus,
    ensures
        run_signals(s, sigs) == s,
{
    lemma_advance_run(s, sigs);
    crate::focus::lemma_ring_cycle(s.focused_field);
}

/// A run of advance-focus signals only turns the focus, by one ring step
/// per signal.
proof fn lemma_advance_run(s: AppView, sigs: Seq<InputSignal>)
    requires
        forall|i: int| 0 <= i < sigs.len() ==> sigs[i] == InputSignal::AdvanceFocus,
    ensures
        run_signals(s, sigs) == (AppView {
            focused_field: spec_advance_n(s.focused_field, sigs.len()),
            ..s
        }),
    decreases sigs.len(),
{
    if sigs.len() > 0 {
        let s1 = spec_step(s, sigs[0]);
        let rest = sigs.drop_first();
        assert forall|i: int| 0 <= i < rest.len() implies rest[i]
            == InputSignal::AdvanceFocus by {
            assert(rest[i] == sigs[i + 1]);
        }
        lemma_advance_run(s1, rest);
    }
}

/// The cancel signal is terminal: from any state it sets the exit flag and
/// changes nothing else, and once the flag is set no signal clears it.
pub proof fn lemma_cancel_terminal(s: AppView, sig: InputSignal)
    ensures
        spec_step(s, InputSignal::Cancel) == (AppView { exit: true, ..s }),
        s.exit ==> spec_step(s, sig).exit,
{
}

/// Once the exit flag is set, no run of further signals clears it again.
pub proof fn lemma_exit_stays(s: AppView, sigs: Seq<InputSignal>)
    requires
        s.exit,
    ensures
        run_signals(s, sigs).exit,
    decreases sigs.len(),
{
    if sigs.len() > 0 {
        lemma_cancel_terminal(s, sigs[0]);
        lemma_exit_stays(spec_step(s, sigs[0]), sigs.drop_first());
    }
}

} // verus!
