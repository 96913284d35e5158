//! Agent records: their stored fields and how an update request merges into them.
use vstd::prelude::*;

verus! {

#[derive(Clone, Debug)]
pub struct AgentZomeConfig {
    pub index_zome: String,
}

#[derive(Clone, Debug)]
pub struct DnaConfigSlice {
    pub agent: AgentZomeConfig,
}

/// Stored fields of an agent.
#[derive(Clone, Debug)]
pub struct EntryData {
    pub name: String,
    pub agent_type: String,
    pub image: Option<String>,
    pub classified_as: Option<Vec<String>>,
    pub note: Option<String>,
    /// Random bytes that keep two agents with equal fields apart.
    pub _nonce: Vec<u8>,
}

/// Fields of a new agent.
#[derive(Clone, Debug)]
pub struct CreateRequest {
    pub name: String,
    pub agent_type: String,
    pub image: Option<String>,
    pub classified_as: Option<Vec<String>>,
    pub note: Option<String>,
}

/// Fields to change on an agent; `None` leaves a field as it is.
#[derive(Clone, Debug)]
pub struct UpdateRequest {
    pub name: Option<String>,
    pub image: Option<String>,
    pub classified_as: Option<Vec<String>>,
    pub note: Option<String>,
}

pub struct EntryView {
    pub name: Seq<char>,
    pub agent_type: Seq<char>,
    pub image: Option<Seq<char>>,
    pub classified_as: Option<Seq<Seq<char>>>,
    pub note: Option<Seq<char>>,
    pub nonce: Seq<u8>,
}

pub struct UpdateView {
    pub name: Option<Seq<char>>,
    pub image: Option<Seq<char>>,
    pub classified_as: Option<Seq<Seq<char>>>,
    pub note: Option<Seq<char>>,
}

pub open spec fn opt_str(o: Option<String>) -> Option<Seq<char>> {
    match o {
        Some(s) => Some(s@),
        None => None,
    }
}

pub open spec fn opt_strs(o: Option<Vec<String>>) -> Option<Seq<Seq<char>>> {
    match o {
        Some(v) => Some(v@.map_values(|s: String| s@)),
        None => None,
    }
}

impl View for EntryData {
    type V = EntryView;

    open spec fn view(&self) -> EntryView {
        EntryView {
            name: self.name@,
            agent_type: self.agent_type@,
            image: opt_str(self.image),
            classified_as: opt_strs(self.classified_as),
            note: opt_str(self.note),
            nonce: self._nonce@,
        }
    }
}

impl View for UpdateRequest {
    type V = UpdateView;

    open spec fn view(&self) -> UpdateView {
        UpdateView {
            name: opt_str(self.name),
            image: opt_str(self.image),
            classified_as: opt_strs(self.classified_as),
            note: opt_str(self.note),
        }
    }
}

/// `new` where it is given, else `old`.
pub open spec fn pick<T>(new: Option<T>, old: T) -> T {
    match new {
        Some(v) => v,
        None => old,
    }
}

/// An agent after an update: each given field replaces the stored one; the
/// agent type and the nonce never change.
pub open spec fn merged(e: EntryView, u: UpdateView) -> EntryView {
    EntryView {
        name: pick(u.name, e.name),
        agent_type: e.agent_type,
        image: if u.image is Some { u.image } else { e.image },
        classified_as: if u.classified_as is Some { u.classified_as } else { e.classified_as },
        note: if u.note is Some { u.note } else { e.note },
        nonce: e.nonce,
    }
}

fn copy_str(s: &String) -> (r: String)
    ensures
        r@ == s@,
{
    s.clone()
}

fn copy_opt_str(o: &Option<String>) -> (r: Option<String>)
    ensures
        opt_str(r) == opt_str(*o),
{
    match o {
        Some(s) => Some(copy_str(s)),
        None => None,
    }
}

fn copy_opt_strs(o: &Option<Vec<String>>) -> (r: Option<Vec<String>>)
    ensures
        opt_strs(r) == opt_strs(*o),
{
    match o {
        None => None,
        Some(v) => {
            let mut out: Vec<String> = Vec::new();
            let mut i: usize = 0;
            while i < v.len()
                invariant
                    0 <= i <= v@.len(),
                    out@.map_values(|s: String| s@) == v@.map_values(|s: String| s@).take(i as int),
                decreases v@.len() - i,
            {
                let ghost before = out@;
                out.push(copy_str(&v[i]));
                assert(out@.map_values(|s: String| s@) =~= before.map_values(|s: String| s@).push(v@[i as int]@));
                assert(v@.map_values(|s: String| s@).take(i + 1)
                    =~= v@.map_values(|s: String| s@).take(i as int).push(v@[i as int]@));
                i = i + 1;
            }
            assert(v@.map_values(|s: String| s@).take(i as int) =~= v@.map_values(|s: String| s@));
            Some(out)
        },
    }
}

impl EntryData {
    /// The stored fields of a new agent, with the given 32-byte nonce.
    pub fn from_request(e: &CreateRequest, nonce: Vec<u8>) -> (r: EntryData)
        requires
            nonce@.len() == 32,
        ensures
            r@ == (EntryView {
                name: e.name@,
                agent_type: e.agent_type@,
                image: opt_str(e.image),
                classified_as: opt_strs(e.classified_as),
                note: opt_str(e.note),
                nonce: nonce@,
            }),
    {
        EntryData {
            name: copy_str(&e.name),
            agent_type: copy_str(&e.agent_type),
            image: copy_opt_str(&e.image),
            classified_as: copy_opt_strs(&e.classified_as),
            note: copy_opt_str(&e.note),
            _nonce: nonce,
        }
    }

    /// Merges an update request into this agent.
    pub fn update_with(&self, e: &UpdateRequest) -> (r: EntryData)
        ensures
            r@ == merged(self@, e@),
    {
        let name = match &e.name {
            Some(n) => copy_str(n),
            None => copy_str(&self.name),
        };
        let image = if e.image.is_some() { copy_opt_str(&e.image) } else { copy_opt_str(&self.image) };
        let classified_as = if e.classified_as.is_some() {
            copy_opt_strs(&e.classified_as)
        } else {
            copy_opt_strs(&self.classified_as)
        };
        let note = if e.note.is_some() { copy_opt_str(&e.note) } else { copy_opt_str(&self.note) };
        let nonce = crate::bytes::copy_bytes(self._nonce.as_slice());
        EntryData { name, agent_type: copy_str(&self.agent_type), image, classified_as, note, _nonce: nonce }
    }
}

} // verus!
