use vstd::prelude::*;

verus! {

/// How a particle looks and behaves: its display color and whether it falls.
#[derive(Clone, Copy, Debug, PartialEq, Eq, Structural)]
pub struct ParticleType {
    pub color: u8,
    pub has_gravity: bool,
}

/// The fixed particle table, indexed by code: air, sand, wall.
pub open spec fn particle_spec(code: u8) -> ParticleType {
    if code == 0 {
        ParticleType { color: 0, has_gravity: false }
    } else if code == 1 {
        ParticleType { color: 1, has_gravity: true }
    } else {
        ParticleType { color: 2, has_gravity: false }
    }
}

/// Looks a code up in the particle table.
pub fn particle_type(code: u8) -> (r: ParticleType)
    requires
        code < 3,
    ensures
        r == particle_spec(code),
{
    match code {
        0 => ParticleType { color: 0, has_gravity: false },
        1 => ParticleType { color: 1, has_gravity: true },
        _ => ParticleType { color: 2, has_gravity: false },
    }
}

} // verus!
