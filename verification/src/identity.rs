//! This machine's identity: machine name (the member id) and display name.
use vstd::prelude::*;

verus! {

/// Identity of this machine.
#[derive(Debug, Clone)]
pub struct Identity {
    /// Machine name (fixed; the member id).
    pub machine_name: String,
    /// Display name (changeable; the machine name by default).
    pub display_name: String,
}

impl Identity {
    /// A new identity showing its machine name.
    pub fn new(machine_name: &str) -> (id: Identity)
        ensures
            id.machine_name@ == machine_name@,
            id.display_name@ == machine_name@,
    {
        Identity { machine_name: machine_name.to_owned(), display_name: machine_name.to_owned() }
    }

    /// Changes the display name.
    pub fn rename(&mut self, new_display: &str)
        ensures
            final(self).display_name@ == new_display@,
            final(self).machine_name == old(self).machine_name,
    {
        self.display_name = new_display.to_owned();
    }

    pub fn duplicate(&self) -> (r: Identity)
        ensures
            r == *self,
    {
        Identity { machine_name: self.machine_name.clone(), display_name: self.display_name.clone() }
    }
}

/// Holder of the identity shared by the member gateway.
pub struct IdentityHolder {
    inner: Identity,
}

impl IdentityHolder {
    pub closed spec fn identity(&self) -> Identity {
        self.inner
    }

    pub fn new(identity: Identity) -> (h: Self)
        ensures
            h.identity() == identity,
    {
        IdentityHolder { inner: identity }
    }

    pub fn get(&self) -> (r: Identity)
        ensures
            r == self.identity(),
    {
        self.inner.duplicate()
    }

    pub fn rename(&mut self, new_display: &str)
        ensures
            final(self).identity().display_name@ == new_display@,
            final(self).identity().machine_name == old(self).identity().machine_name,
    {
        self.inner.rename(new_display);
    }

    pub fn machine_name(&self) -> (r: String)
        ensures
            r == self.identity().machine_name,
    {
        self.inner.machine_name.clone()
    }

    pub fn display_name(&self) -> (r: String)
        ensures
            r == self.identity().display_name,
    {
        self.inner.display_name.clone()
    }
}

/// Machine name used when neither `COMPUTERNAME` nor `HOSTNAME` is set.
pub fn hostname_fallback() -> (r: Result<String, ()>)
    ensures
        r matches Ok(s) && s@ == "machine"@,
{
    Ok("machine".to_owned())
}

} // verus!
