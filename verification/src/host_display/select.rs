//! Which connector and which mode the display takes. Pure: the lists come from
//! the DRM ioctls or from a test.

use vstd::prelude::*;
use vstd::string::*;

use crate::observe::{field_texts, Field};
use crate::seqs::{first_where, is_first, lemma_first_found, lemma_first_missing, lemma_first_none};
use crate::text::same_text;

verus! {

/// One display mode of a connector, in the order the kernel listed it.
#[derive(Clone, Copy, Debug, PartialEq, Eq, Structural)]
pub struct Mode {
    pub width: u16,
    pub height: u16,
    /// Vertical refresh in millihertz.
    pub refresh_mhz: u32,
    /// `DRM_MODE_TYPE_PREFERRED` was set.
    pub preferred: bool,
    /// Position in the connector's mode list.
    pub index: usize,
}

/// One DRM connector, named the way the kernel names it (`HDMI-A-1`).
#[derive(Clone, Debug, PartialEq, Eq)]
pub struct Connector {
    pub id: u32,
    pub name: String,
    pub connected: bool,
    pub modes: Vec<Mode>,
}

/// The connector and mode the display will take.
#[derive(Clone, Debug, PartialEq, Eq)]
pub struct Choice {
    pub connector_id: u32,
    pub connector: String,
    pub mode: Mode,
}

/// Why no connector or mode could be chosen.
#[derive(Clone, Debug, PartialEq, Eq)]
pub enum SelectError {
    /// No connected connector, or the one named is absent or has no screen.
    NoConnector { wanted: Option<String> },
    /// The connector is connected but lists no mode.
    NoMode { connector: String },
}

/// Whether a connector has a screen and, where one is named, is that one.
pub open spec fn eligible(wanted: Option<Seq<char>>) -> spec_fn(Connector) -> bool {
    |c: Connector| c.connected && (wanted matches Some(name) ==> c.name@ == name)
}

/// Whether a mode is 1920x1080.
pub open spec fn full_hd() -> spec_fn(Mode) -> bool {
    |m: Mode| m.width == 1920 && m.height == 1080
}

/// Whether a mode is the connector's preferred one.
pub open spec fn preferred() -> spec_fn(Mode) -> bool {
    |m: Mode| m.preferred
}

/// The first 1920x1080 mode, else the first preferred mode, else the first.
pub open spec fn mode_pick(modes: Seq<Mode>) -> Option<int> {
    match first_where(modes, full_hd()) {
        Some(i) => Some(i),
        None => match first_where(modes, preferred()) {
            Some(i) => Some(i),
            None => if modes.len() > 0 {
                Some(0)
            } else {
                None
            },
        },
    }
}

/// The text of an optional string.
pub open spec fn text_of(s: Option<String>) -> Option<Seq<char>> {
    match s {
        Some(s) => Some(s@),
        None => None,
    }
}

/// The text of an optional string slice.
pub open spec fn str_of(s: Option<&str>) -> Option<Seq<char>> {
    match s {
        Some(s) => Some(s@),
        None => None,
    }
}

/// Whether `result` is what comes of choosing among `connectors`.
pub open spec fn is_choice(
    connectors: Seq<Connector>,
    wanted: Option<Seq<char>>,
    result: Result<Choice, SelectError>,
) -> bool {
    match first_where(connectors, eligible(wanted)) {
        None => result matches Err(SelectError::NoConnector { wanted: w }) && text_of(w) == wanted,
        Some(i) => match mode_pick(connectors[i].modes@) {
            None => result matches Err(SelectError::NoMode { connector }) && connector@
                == connectors[i].name@,
            Some(k) => {
                &&& result matches Ok(choice)
                &&& choice.connector_id == connectors[i].id
                &&& choice.connector@ == connectors[i].name@
                &&& choice.mode == connectors[i].modes@[k]
            },
        },
    }
}

fn find_connector(connectors: &[Connector], wanted: Option<&str>) -> (found: Option<usize>)
    ensures
        match found {
            Some(i) => first_where(connectors@, eligible(str_of(wanted))) == Some(i as int) && i
                < connectors@.len(),
            None => first_where(connectors@, eligible(str_of(wanted))) == None::<int>,
        },
{
    let ghost p = eligible(str_of(wanted));
    let mut i: usize = 0;
    while i < connectors.len()
        invariant
            i <= connectors@.len(),
            p == eligible(str_of(wanted)),
            forall|j: int| 0 <= j < i ==> !p(#[trigger] connectors@[j]),
        decreases connectors@.len() - i,
    {
        let c = &connectors[i];
        let named: bool = match wanted {
            Some(name) => same_text(c.name.as_str(), name),
            None => true,
        };
        if c.connected && named {
            proof {
                lemma_first_found(connectors@, p, i as int);
            }
            return Some(i);
        }
        i += 1;
    }
    proof {
        lemma_first_missing(connectors@, p);
    }
    None
}

fn find_mode(modes: &Vec<Mode>) -> (found: Option<usize>)
    ensures
        match found {
            Some(i) => mode_pick(modes@) == Some(i as int) && i < modes@.len(),
            None => mode_pick(modes@) == None::<int>,
        },
{
    let ghost hd = full_hd();
    let ghost pref = preferred();
    let mut fallback: Option<usize> = None;
    let mut i: usize = 0;
    while i < modes.len()
        invariant
            i <= modes@.len(),
            hd == full_hd(),
            pref == preferred(),
            forall|j: int| 0 <= j < i ==> !hd(#[trigger] modes@[j]),
            match fallback {
                Some(k) => k < i && is_first(modes@, pref, k as int),
                None => forall|j: int| 0 <= j < i ==> !pref(#[trigger] modes@[j]),
            },
        decreases modes@.len() - i,
    {
        if modes[i].width == 1920 && modes[i].height == 1080 {
            proof {
                lemma_first_found(modes@, hd, i as int);
            }
            return Some(i);
        }
        if fallback.is_none() && modes[i].preferred {
            fallback = Some(i);
        }
        i += 1;
    }
    proof {
        lemma_first_missing(modes@, hd);
        match fallback {
            Some(k) => lemma_first_found(modes@, pref, k as int),
            None => lemma_first_missing(modes@, pref),
        }
    }
    if fallback.is_none() && modes.len() > 0 {
        Some(0)
    } else {
        fallback
    }
}

/// Take the named connector (or the first connected one) and its 1920x1080
/// mode, else its preferred mode, else its first mode.
pub fn choose_connector(connectors: &[Connector], wanted: Option<&str>) -> (result: Result<
    Choice,
    SelectError,
>)
    ensures
        is_choice(connectors@, str_of(wanted), result),
{
    let at: usize = match find_connector(connectors, wanted) {
        Some(i) => i,
        None => {
            let wanted: Option<String> = match wanted {
                Some(name) => Some(name.to_owned()),
                None => None,
            };
            return Err(SelectError::NoConnector { wanted });
        },
    };
    let connector = &connectors[at];
    match find_mode(&connector.modes) {
        Some(k) => Ok(
            Choice {
                connector_id: connector.id,
                connector: connector.name.clone(),
                mode: connector.modes[k],
            },
        ),
        None => Err(SelectError::NoMode { connector: connector.name.clone() }),
    }
}

impl SelectError {
    /// The text of the slug.
    pub open spec fn slug_text(self) -> Seq<char> {
        match self {
            SelectError::NoConnector { .. } => "no_connector"@,
            SelectError::NoMode { .. } => "no_mode"@,
        }
    }

    /// The slug and the value it is about.
    pub open spec fn text(self) -> Seq<char> {
        match self {
            SelectError::NoConnector { wanted: Some(name) } => "no_connector wanted="@ + name@,
            SelectError::NoConnector { wanted: None } => "no_connector"@,
            SelectError::NoMode { connector } => "no_mode connector="@ + connector@,
        }
    }

    /// The names and values of the fields.
    pub open spec fn fields_of(self) -> Seq<(Seq<char>, Seq<char>)> {
        match self {
            SelectError::NoConnector { wanted: Some(name) } => seq![("wanted"@, name@)],
            SelectError::NoConnector { wanted: None } => Seq::empty(),
            SelectError::NoMode { connector } => seq![("connector"@, connector@)],
        }
    }

    /// The name of the refusal.
    pub fn slug(&self) -> (slug: &'static str)
        ensures
            slug@ == self.slug_text(),
    {
        match self {
            SelectError::NoConnector { .. } => "no_connector",
            SelectError::NoMode { .. } => "no_mode",
        }
    }

    /// The refusal as a log line shows it.
    pub fn to_string(&self) -> (text: String)
        ensures
            text@ == self.text(),
    {
        match self {
            SelectError::NoConnector { wanted: Some(name) } => {
                "no_connector wanted=".to_owned().concat(name.as_str())
            },
            SelectError::NoConnector { wanted: None } => "no_connector".to_owned(),
            SelectError::NoMode { connector } => {
                "no_mode connector=".to_owned().concat(connector.as_str())
            },
        }
    }

    /// The values the refusal is about.
    pub fn fields(&self) -> (fields: Vec<Field>)
        ensures
            field_texts(fields@) == self.fields_of(),
    {
        let mut fields: Vec<Field> = Vec::new();
        match self {
            SelectError::NoConnector { wanted: Some(name) } => {
                fields.push(("wanted", name.clone()));
            },
            SelectError::NoConnector { wanted: None } => {},
            SelectError::NoMode { connector } => {
                fields.push(("connector", connector.clone()));
            },
        }
        assert(field_texts(fields@) =~= self.fields_of());
        fields
    }
}

/// What is chosen was offered. The connector is the first of the list that has a
/// screen and, where one was named, has that name. The mode is one of that
/// connector's: the first that is 1920 wide and 1080 high, if it lists one; if
/// not, the first that is preferred, if it lists one; and if not, its first.
pub proof fn law_choice_is_offered(
    connectors: Seq<Connector>,
    wanted: Option<Seq<char>>,
    choice: Choice,
)
    requires
        is_choice(connectors, wanted, Ok(choice)),
    ensures
        exists|i: int, k: int|
            {
                let modes = connectors[i].modes@;
                &&& 0 <= i < connectors.len()
                &&& connectors[i].connected
                &&& wanted matches Some(name) ==> connectors[i].name@ == name
                &&& forall|j: int|
                    0 <= j < i && (#[trigger] connectors[j]).connected ==> wanted is Some && wanted
                        != Some(connectors[j].name@)
                &&& connectors[i].id == choice.connector_id
                &&& connectors[i].name@ == choice.connector@
                &&& 0 <= k < modes.len()
                &&& #[trigger] connectors[i].modes@[k] == choice.mode
                &&& (exists|m: int|
                    0 <= m < modes.len() && (#[trigger] modes[m]).width == 1920 && modes[m].height
                        == 1080) ==> {
                    &&& choice.mode.width == 1920
                    &&& choice.mode.height == 1080
                    &&& forall|m: int|
                        0 <= m < k ==> (#[trigger] modes[m]).width != 1920 || modes[m].height
                            != 1080
                }
                &&& (forall|m: int|
                    0 <= m < modes.len() ==> (#[trigger] modes[m]).width != 1920 || modes[m].height
                        != 1080) && (exists|m: int|
                    0 <= m < modes.len() && (#[trigger] modes[m]).preferred) ==> {
                    &&& choice.mode.preferred
                    &&& forall|m: int| 0 <= m < k ==> !(#[trigger] modes[m]).preferred
                }
                &&& (forall|m: int|
                    0 <= m < modes.len() ==> !(#[trigger] modes[m]).preferred && (modes[m].width
                        != 1920 || modes[m].height != 1080)) ==> k == 0
            },
{
    let p = eligible(wanted);
    let i = first_where(connectors, p)->0;
    assert(is_first(connectors, p, i));
    let modes = connectors[i].modes@;
    let k = mode_pick(modes)->0;
    assert forall|j: int| 0 <= j < i && (#[trigger] connectors[j]).connected implies wanted is Some
        && wanted != Some(connectors[j].name@) by {
        assert(!p(connectors[j]));
    }
    lemma_mode_pick(modes);
    assert(connectors[i].modes@[k] == choice.mode);
}

proof fn lemma_mode_pick(modes: Seq<Mode>)
    requires
        mode_pick(modes) is Some,
    ensures
        ({
            let k = mode_pick(modes)->0;
            &&& 0 <= k < modes.len()
            &&& (exists|m: int|
                0 <= m < modes.len() && (#[trigger] modes[m]).width == 1920 && modes[m].height
                    == 1080) ==> {
                &&& modes[k].width == 1920
                &&& modes[k].height == 1080
                &&& forall|m: int|
                    0 <= m < k ==> (#[trigger] modes[m]).width != 1920 || modes[m].height != 1080
            }
            &&& (forall|m: int|
                0 <= m < modes.len() ==> (#[trigger] modes[m]).width != 1920 || modes[m].height
                    != 1080) && (exists|m: int|
                0 <= m < modes.len() && (#[trigger] modes[m]).preferred) ==> {
                &&& modes[k].preferred
                &&& forall|m: int| 0 <= m < k ==> !(#[trigger] modes[m]).preferred
            }
            &&& (forall|m: int|
                0 <= m < modes.len() ==> !(#[trigger] modes[m]).preferred && (modes[m].width != 1920
                    || modes[m].height != 1080)) ==> k == 0
        }),
{
    let (hd, pref) = (full_hd(), preferred());
    let k = mode_pick(modes)->0;
    if first_where(modes, hd) is Some {
        assert(is_first(modes, hd, k));
        assert(hd(modes[k]));
        assert forall|m: int| 0 <= m < k implies (#[trigger] modes[m]).width != 1920
            || modes[m].height != 1080 by {
            assert(!hd(modes[m]));
        }
    } else {
        lemma_first_none(modes, hd);
        assert forall|m: int| 0 <= m < modes.len() implies (#[trigger] modes[m]).width != 1920
            || modes[m].height != 1080 by {
            assert(!hd(modes[m]));
        }
        if first_where(modes, pref) is Some {
            assert(is_first(modes, pref, k));
            assert(pref(modes[k]));
            assert forall|m: int| 0 <= m < k implies !(#[trigger] modes[m]).preferred by {
                assert(!pref(modes[m]));
            }
        } else {
            lemma_first_none(modes, pref);
            assert forall|m: int| 0 <= m < modes.len() implies !(#[trigger] modes[m]).preferred by {
                assert(!pref(modes[m]));
            }
        }
    }
}

/// Nothing is chosen only where there is nothing to choose: no connector with a
/// screen has the name that is wanted, where one is; or the first that does lists
/// no mode, and is named.
pub proof fn law_a_refusal_to_choose_is_true(
    connectors: Seq<Connector>,
    wanted: Option<Seq<char>>,
    error: SelectError,
)
    requires
        is_choice(connectors, wanted, Err(error)),
    ensures
        match error {
            SelectError::NoConnector { wanted: named } => {
                &&& text_of(named) == wanted
                &&& forall|j: int|
                    0 <= j < connectors.len() && (#[trigger] connectors[j]).connected ==> wanted is Some
                        && wanted != Some(connectors[j].name@)
            },
            SelectError::NoMode { connector } => exists|i: int|
                {
                    &&& 0 <= i < connectors.len()
                    &&& (#[trigger] connectors[i]).connected
                    &&& connectors[i].modes@.len() == 0
                    &&& connectors[i].name@ == connector@
                    &&& wanted matches Some(name) ==> connector@ == name
                    &&& forall|j: int|
                        0 <= j < i && (#[trigger] connectors[j]).connected ==> wanted is Some
                            && wanted != Some(connectors[j].name@)
                },
        },
{
    let p = eligible(wanted);
    match first_where(connectors, p) {
        Some(i) => {
            assert(is_first(connectors, p, i));
            assert forall|j: int| 0 <= j < i && (#[trigger] connectors[j]).connected implies wanted
                is Some && wanted != Some(connectors[j].name@) by {
                assert(!p(connectors[j]));
            }
            let modes = connectors[i].modes@;
            if modes.len() > 0 {
                assert(mode_pick(modes) is Some);
            }
            assert(connectors[i].connected);
        },
        None => {
            lemma_first_none(connectors, p);
            assert forall|j: int|
                0 <= j < connectors.len() && (#[trigger] connectors[j]).connected implies wanted
                is Some && wanted != Some(connectors[j].name@) by {
                assert(!p(connectors[j]));
            }
        },
    }
}

/// A refusal to choose reads as its name and what it is about.
pub proof fn law_a_refusal_to_choose_reads_in_full(name: String)
    ensures
        (SelectError::NoConnector { wanted: Some(name) }).text() == "no_connector"@ + " wanted="@
            + name@,
        (SelectError::NoConnector { wanted: None }).text() == "no_connector"@,
        (SelectError::NoMode { connector: name }).text() == "no_mode"@ + " connector="@ + name@,
        (SelectError::NoConnector { wanted: Some(name) }).fields_of() == seq![("wanted"@, name@)],
        (SelectError::NoConnector { wanted: None }).fields_of().len() == 0,
        (SelectError::NoMode { connector: name }).fields_of() == seq![("connector"@, name@)],
{
    reveal_strlit("no_connector wanted=");
    reveal_strlit("no_connector");
    reveal_strlit(" wanted=");
    reveal_strlit("no_mode connector=");
    reveal_strlit("no_mode");
    reveal_strlit(" connector=");
    assert("no_connector wanted="@ =~= "no_connector"@ + " wanted="@);
    assert("no_mode connector="@ =~= "no_mode"@ + " connector="@);
}

} // verus!
