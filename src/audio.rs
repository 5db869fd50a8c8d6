//! A registry of sound handles looked up by name.
use vstd::prelude::*;
use vstd::string::StringExecFns;

verus! {

/// A sound handle `H` registered under a name.
pub struct NamedAudioHandle<H> {
    pub name: String,
    pub handle: H,
}

/// The registered sounds, in the order of registration.
pub struct AudioController<H> {
    pub handles: Vec<NamedAudioHandle<H>>,
}

/// Whether some entry of `s` is registered under `name`.
pub open spec fn has_name<H>(s: Seq<NamedAudioHandle<H>>, name: Seq<char>) -> bool {
    exists|i: int| 0 <= i < s.len() && #[trigger] s[i].name@ == name
}

/// Whether `i` is the first entry of `s` registered under `name`.
pub open spec fn is_first_named<H>(s: Seq<NamedAudioHandle<H>>, name: Seq<char>, i: int) -> bool {
    &&& 0 <= i < s.len()
    &&& s[i].name@ == name
    &&& forall|j: int| 0 <= j < i ==> #[trigger] s[j].name@ != name
}

/// Registers a sound under a name.
pub trait AddHandle<H> {
    fn add_handle(&mut self, name: &str, handle: H);
}

/// Looks a sound up by name.
pub trait GetHandle<H> {
    fn get_handle(&self, name: &str) -> Option<NamedAudioHandle<H>>;
}

impl<H> AudioController<H> {
    /// A registry with no sound.
    pub fn new() -> (r: Self)
        ensures
            r.handles@ == Seq::<NamedAudioHandle<H>>::empty(),
    {
        AudioController { handles: Vec::new() }
    }

    fn find(&self, name: &String) -> (r: Option<usize>)
        ensures
            r.is_none() == !has_name(self.handles@, name@),
            r.is_some() ==> is_first_named(self.handles@, name@, r.unwrap() as int),
    {
        let mut i: usize = 0;
        while i < self.handles.len()
            invariant
                0 <= i <= self.handles@.len(),
                forall|j: int| 0 <= j < i ==> #[trigger] self.handles@[j].name@ != name@,
            decreases self.handles@.len() - i,
        {
            if self.handles[i].name == *name {
                return Some(i);
            }
            i += 1;
        }
        None
    }
}

impl<H> AddHandle<H> for AudioController<H> {
    /// Appends `handle` under `name`, unless a sound is registered under
    /// that name already, in which case nothing changes.
    fn add_handle(&mut self, name: &str, handle: H)
        ensures
            has_name(old(self).handles@, name@) ==> final(self).handles@ == old(self).handles@,
            !has_name(old(self).handles@, name@) ==> final(self).handles@.len() == old(self).handles@.len() + 1
                && final(self).handles@.drop_last() == old(self).handles@
                && final(self).handles@.last().name@ == name@
                && final(self).handles@.last().handle == handle,
    {
        let name_string = String::from_str(name);
        if self.find(&name_string).is_some() {
            return;
        }
        self.handles.push(NamedAudioHandle { name: name_string, handle });
        proof {
            assert(self.handles@.drop_last() =~= old(self).handles@);
        }
    }
}

impl<H: Clone> GetHandle<H> for AudioController<H> {
    /// A copy of the first sound registered under `name`, if any.
    fn get_handle(&self, name: &str) -> (r: Option<NamedAudioHandle<H>>)
        ensures
            r.is_none() == !has_name(self.handles@, name@),
            r.is_some() ==> exists|i: int|
                is_first_named(self.handles@, name@, i) && r.unwrap().name@ == name@
                    && cloned::<H>(#[trigger] self.handles@[i].handle, r.unwrap().handle),
    {
        let name_string = String::from_str(name);
        match self.find(&name_string) {
            Some(i) => {
                let entry = &self.handles[i];
                let handle = entry.handle.clone();
                Some(NamedAudioHandle { name: name_string, handle })
            },
            None => None,
        }
    }
}

} // verus!
