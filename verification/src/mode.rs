//! The mode of a node, and the two knobs of a device that it sets.
use vstd::prelude::*;

use crate::refusal::Refusal;
use crate::text::same;

verus! {

/// Confidential computing, per GPU.
#[derive(Clone, Copy, Debug, PartialEq, Eq, Structural)]
pub enum CcMode {
    Off,
    On,
    DevTools,
}

impl CcMode {
    pub open spec fn text(self) -> Seq<char> {
        match self {
            CcMode::Off => "off"@,
            CcMode::On => "on"@,
            CcMode::DevTools => "devtools"@,
        }
    }

    pub fn name(self) -> (r: &'static str)
        ensures
            r@ == self.text(),
    {
        match self {
            CcMode::Off => "off",
            CcMode::On => "on",
            CcMode::DevTools => "devtools",
        }
    }
}

/// Protected PCIe, per baseboard.
#[derive(Clone, Copy, Debug, PartialEq, Eq, Structural)]
pub enum PpcieMode {
    Off,
    On,
}

impl PpcieMode {
    pub open spec fn text(self) -> Seq<char> {
        match self {
            PpcieMode::Off => "off"@,
            PpcieMode::On => "on"@,
        }
    }

    pub fn name(self) -> (r: &'static str)
        ensures
            r@ == self.text(),
    {
        match self {
            PpcieMode::Off => "off",
            PpcieMode::On => "on",
        }
    }
}

/// Not [`CcMode`]: that is per GPU and has no PPCIE variant, while PPCIE is
/// node-wide and covers the NVSwitches. All four are mutually exclusive.
#[derive(Clone, Copy, Debug, PartialEq, Eq, Structural)]
pub enum Mode {
    Off,
    On,
    DevTools,
    /// Protected PCIe: Hopper multi-GPU CC, switches claimed by a single CVM.
    Ppcie,
}

/// What `{:?}` of a string prints: the text in double quotes, escaped.
pub uninterp spec fn quoted_text(s: Seq<char>) -> Seq<char>;

/// `format!("{:?}", s)` of std, for a string. Its result depends on the text
/// of `s` alone; which characters it escapes is not stated.
#[verifier::external_body]
fn quoted(s: &str) -> (r: String)
    ensures
        r@ == quoted_text(s@),
{
    format!("{:?}", s)
}

/// `read` is what comes of reading `s` as a mode: the mode whose name it is, or
/// a refusal that quotes it where it is the name of none.
pub open spec fn reads_as(s: Seq<char>, read: Result<Mode, Refusal>) -> bool {
    match read {
        Ok(mode) => s == mode.text(),
        Err(refusal) => {
            &&& forall|mode: Mode| #[trigger] mode.text() != s
            &&& refusal.message@ == "unknown mode "@ + quoted_text(s)
                + ": expected off, on, devtools or ppcie"@
        },
    }
}

impl Mode {
    pub open spec fn cc(self) -> CcMode {
        match self {
            Mode::Off | Mode::Ppcie => CcMode::Off,
            Mode::On => CcMode::On,
            Mode::DevTools => CcMode::DevTools,
        }
    }

    pub open spec fn ppcie(self) -> PpcieMode {
        if self == Mode::Ppcie {
            PpcieMode::On
        } else {
            PpcieMode::Off
        }
    }

    pub open spec fn text(self) -> Seq<char> {
        match self {
            Mode::Off => "off"@,
            Mode::On => "on"@,
            Mode::DevTools => "devtools"@,
            Mode::Ppcie => "ppcie"@,
        }
    }

    /// Per-GPU CC is off under PPCIE: the board is the trust boundary there.
    pub fn cc_target(self) -> (r: CcMode)
        ensures
            r == self.cc(),
    {
        match self {
            Mode::Off | Mode::Ppcie => CcMode::Off,
            Mode::On => CcMode::On,
            Mode::DevTools => CcMode::DevTools,
        }
    }

    pub fn ppcie_target(self) -> (r: PpcieMode)
        ensures
            r == self.ppcie(),
    {
        match self {
            Mode::Ppcie => PpcieMode::On,
            Mode::Off | Mode::On | Mode::DevTools => PpcieMode::Off,
        }
    }

    /// Whether a node in this mode protects what runs on it.
    pub fn cc_ready(self) -> (r: bool)
        ensures
            r == (self != Mode::Off),
    {
        self != Mode::Off
    }

    /// The mode as it is written on the command line and in labels.
    pub fn name(self) -> (r: &'static str)
        ensures
            r@ == self.text(),
    {
        match self {
            Mode::Off => "off",
            Mode::On => "on",
            Mode::DevTools => "devtools",
            Mode::Ppcie => "ppcie",
        }
    }

    /// Read a mode as [`Mode::name`] writes it. Nothing else is a mode.
    pub fn from_str(s: &str) -> (r: Result<Mode, Refusal>)
        ensures
            reads_as(s@, r),
    {
        if same(s, "off") {
            Ok(Mode::Off)
        } else if same(s, "on") {
            Ok(Mode::On)
        } else if same(s, "devtools") {
            Ok(Mode::DevTools)
        } else if same(s, "ppcie") {
            Ok(Mode::Ppcie)
        } else {
            let mut message = "unknown mode ".to_owned();
            message.append(quoted(s).as_str());
            message.append(": expected off, on, devtools or ppcie");
            Err(Refusal { message })
        }
    }
}

impl std::str::FromStr for Mode {
    type Err = Refusal;

    fn from_str(s: &str) -> (r: Result<Mode, Refusal>)
        ensures
            reads_as(s@, r),
    {
        Mode::from_str(s)
    }
}

/// No two modes are written alike, so a mode read from its own name is that
/// mode.
pub proof fn law_names_tell_modes_apart(a: Mode, b: Mode)
    ensures
        a.text() == b.text() ==> a == b,
{
    reveal_strlit("off");
    reveal_strlit("on");
    reveal_strlit("devtools");
    reveal_strlit("ppcie");
    assert("off"@[0] == 'o' && "on"@[0] == 'o' && "devtools"@[0] == 'd' && "ppcie"@[0] == 'p');
    assert("off"@.len() == 3 && "on"@.len() == 2);
}

/// The knobs are never both raised: PPCIE and per-GPU CC exclude each other,
/// and exactly the modes other than off raise one of them.
pub proof fn law_one_knob_at_most(mode: Mode)
    ensures
        !(mode.cc() != CcMode::Off && mode.ppcie() == PpcieMode::On),
        mode != Mode::Off <==> mode.cc() != CcMode::Off || mode.ppcie() == PpcieMode::On,
{
}

/// What a mode wants of each knob: CC on and devtools want the CC knob of every
/// GPU there and PPCIE off, PPCIE wants PPCIE on and per-GPU CC off, and off
/// wants both off.
pub proof fn law_a_mode_wants_this_of_the_knobs(mode: Mode)
    ensures
        mode.cc() == CcMode::On <==> mode == Mode::On,
        mode.cc() == CcMode::DevTools <==> mode == Mode::DevTools,
        mode.cc() == CcMode::Off <==> mode == Mode::Off || mode == Mode::Ppcie,
        mode.ppcie() == PpcieMode::On <==> mode == Mode::Ppcie,
        mode.ppcie() == PpcieMode::Off <==> mode != Mode::Ppcie,
{
}

/// How the modes and the settings of the knobs are written.
pub proof fn law_modes_are_written_so(mode: Mode, cc: CcMode, ppcie: PpcieMode)
    ensures
        mode == Mode::Off ==> mode.text() == "off"@,
        mode == Mode::On ==> mode.text() == "on"@,
        mode == Mode::DevTools ==> mode.text() == "devtools"@,
        mode == Mode::Ppcie ==> mode.text() == "ppcie"@,
        cc == CcMode::Off ==> cc.text() == "off"@,
        cc == CcMode::On ==> cc.text() == "on"@,
        cc == CcMode::DevTools ==> cc.text() == "devtools"@,
        ppcie == PpcieMode::Off ==> ppcie.text() == "off"@,
        ppcie == PpcieMode::On ==> ppcie.text() == "on"@,
{
}

/// Exactly four words are modes, each of them one mode. Any other text is
/// refused, and the refusal quotes it.
pub proof fn law_only_four_words_are_modes(s: Seq<char>, read: Result<Mode, Refusal>)
    requires
        reads_as(s, read),
    ensures
        read == Ok::<Mode, Refusal>(Mode::Off) <==> s == "off"@,
        read == Ok::<Mode, Refusal>(Mode::On) <==> s == "on"@,
        read == Ok::<Mode, Refusal>(Mode::DevTools) <==> s == "devtools"@,
        read == Ok::<Mode, Refusal>(Mode::Ppcie) <==> s == "ppcie"@,
        read matches Err(refusal) ==> refusal.message@ == "unknown mode "@ + quoted_text(s)
            + ": expected off, on, devtools or ppcie"@,
{
    law_names_tell_modes_apart(Mode::Off, Mode::On);
    law_names_tell_modes_apart(Mode::Off, Mode::DevTools);
    law_names_tell_modes_apart(Mode::Off, Mode::Ppcie);
    law_names_tell_modes_apart(Mode::On, Mode::DevTools);
    law_names_tell_modes_apart(Mode::On, Mode::Ppcie);
    law_names_tell_modes_apart(Mode::DevTools, Mode::Ppcie);
    assert(Mode::Off.text() == "off"@);
    assert(Mode::On.text() == "on"@);
    assert(Mode::DevTools.text() == "devtools"@);
    assert(Mode::Ppcie.text() == "ppcie"@);
}

} // verus!
