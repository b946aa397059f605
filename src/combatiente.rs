use vstd::prelude::*;

use crate::estrategia::{AtacarAlPrimero, Estrategia, EstrategiaModelo, eleccion};

verus! {

/// Identifier of a fighter: the 128-bit value of a random (version 4) UUID.
/// Two fighters are the same fighter exactly when their identifiers are equal.
pub type IdCombatiente = u128;

/// Health of a fresh fighter, and the most that healing can bring it to.
pub const VIDA_MAXIMA: i32 = 20;

/// Relies on `uuid::Uuid::new_v4`, read back with `Uuid::as_u128`: a fresh
/// random identifier. Nothing is promised of its value.
#[verifier::external_body]
fn id_aleatorio() -> (r: IdCombatiente) {
    uuid::Uuid::new_v4().as_u128()
}

/// A weapon: a fixed attack power.
#[derive(Clone, Copy, Debug, PartialEq, Eq, Structural)]
pub struct Arma {
    ataque: u32,
}

impl Arma {
    pub closed spec fn spec_ataque(&self) -> u32 {
        self.ataque
    }

    /// Bare fists: attack power 2.
    pub fn punos() -> (r: Arma)
        ensures
            r.ataque() == 2,
    {
        Arma { ataque: 2 }
    }

    /// A dagger: attack power 4.
    pub fn daga() -> (r: Arma)
        ensures
            r.ataque() == 4,
    {
        Arma { ataque: 4 }
    }

    #[verifier::when_used_as_spec(spec_ataque)]
    pub fn ataque(&self) -> (r: u32)
        ensures
            r == self.spec_ataque(),
    {
        self.ataque
    }
}

/// A piece of armor: a flat reduction of every incoming hit.
#[derive(Clone, Copy, Debug, PartialEq, Eq, Structural)]
pub struct Armadura {
    proteccion: u32,
}

impl Armadura {
    pub closed spec fn spec_proteccion(&self) -> u32 {
        self.proteccion
    }

    /// Leather armor: reduces each hit by 3.
    pub fn de_cuero() -> (r: Armadura)
        ensures
            r.proteccion() == 3,
    {
        Armadura { proteccion: 3 }
    }

    #[verifier::when_used_as_spec(spec_proteccion)]
    pub fn proteccion(&self) -> (r: u32)
        ensures
            r == self.spec_proteccion(),
    {
        self.proteccion
    }
}

/// Damage reduction given by an optional piece of armor (none reduces nothing).
pub open spec fn proteccion_de(armadura: Option<Armadura>) -> u32 {
    match armadura {
        Some(a) => a.proteccion(),
        None => 0,
    }
}

/// What a fighter is, as far as the rules of combat are concerned.
pub struct CombatienteModelo {
    pub id: IdCombatiente,
    pub vida: i32,
    pub ataque: u32,
    pub proteccion: u32,
    pub estrategia: EstrategiaModelo,
}

impl CombatienteModelo {
    pub open spec fn vivo(self) -> bool {
        self.vida > 0
    }
}

/// Health after a hit of `puntos` against armor `proteccion`: the hit minus the
/// armor is taken off when it is positive; health never goes below `i32::MIN`.
pub open spec fn vida_tras_dano(vida: i32, puntos: u32, proteccion: u32) -> i32 {
    let efectivo = puntos - proteccion;
    if efectivo > 0 {
        if vida - efectivo < i32::MIN {
            i32::MIN
        } else {
            (vida - efectivo) as i32
        }
    } else {
        vida
    }
}

/// Health after healing by `puntos`: raised, but never above the maximum.
pub open spec fn vida_tras_curacion(vida: i32, puntos: u32) -> i32 {
    if vida + puntos > VIDA_MAXIMA {
        VIDA_MAXIMA
    } else {
        (vida + puntos) as i32
    }
}

/// A combat participant. Its health never exceeds `VIDA_MAXIMA`.
#[derive(Debug)]
pub struct Combatiente {
    id: IdCombatiente,
    vida: i32,
    arma: Arma,
    armadura: Option<Armadura>,
    estrategia: Estrategia,
}

impl View for Combatiente {
    type V = CombatienteModelo;

    closed spec fn view(&self) -> CombatienteModelo {
        CombatienteModelo {
            id: self.id,
            vida: self.vida,
            ataque: self.arma.ataque(),
            proteccion: proteccion_de(self.armadura),
            estrategia: self.estrategia@,
        }
    }
}

impl Default for Combatiente {
    /// A fresh fighter with fists, leather armor and the `AtacarAlPrimero` strategy.
    fn default() -> (r: Self)
        ensures
            r@.vida == VIDA_MAXIMA,
            r@.ataque == 2,
            r@.proteccion == 3,
            r@.estrategia == EstrategiaModelo::AtacarAlPrimero,
    {
        Combatiente {
            id: id_aleatorio(),
            vida: VIDA_MAXIMA,
            arma: Arma::punos(),
            armadura: Some(Armadura::de_cuero()),
            estrategia: Estrategia::AtacarAlPrimero(AtacarAlPrimero),
        }
    }
}

impl Combatiente {
    #[verifier::type_invariant]
    spec fn vida_acotada(self) -> bool {
        self.vida <= VIDA_MAXIMA
    }

    /// A fresh fighter with leather armor, the given weapon and strategy.
    pub fn nuevo(arma: Arma, estrategia: Estrategia) -> (r: Self)
        ensures
            r@.vida == VIDA_MAXIMA,
            r@.ataque == arma.ataque(),
            r@.proteccion == 3,
            r@.estrategia == estrategia@,
    {
        Combatiente::nuevo_con_armadura(arma, Some(Armadura::de_cuero()), estrategia)
    }

    /// A fresh fighter with the given weapon, armor (or none) and strategy.
    pub fn nuevo_con_armadura(arma: Arma, armadura: Option<Armadura>, estrategia: Estrategia) -> (r: Self)
        ensures
            r@.vida == VIDA_MAXIMA,
            r@.ataque == arma.ataque(),
            r@.proteccion == proteccion_de(armadura),
            r@.estrategia == estrategia@,
    {
        Combatiente { id: id_aleatorio(), vida: VIDA_MAXIMA, arma, armadura, estrategia }
    }

    /// Takes a hit of `puntos`; returns whether this hit killed the fighter.
    pub fn recibir_dano(&mut self, puntos: u32) -> (murio: bool)
        ensures
            final(self)@ == (CombatienteModelo {
                vida: vida_tras_dano(old(self)@.vida, puntos, old(self)@.proteccion),
                ..old(self)@
            }),
            murio == (old(self)@.vivo() && !final(self)@.vivo()),
            final(self)@.vida <= VIDA_MAXIMA,
    {
        proof {
            use_type_invariant(&*self);
        }
        let efectivo: i64 = puntos as i64 - self.proteccion() as i64;
        if efectivo > 0 {
            let estaba_vivo = self.vida > 0;
            let nueva: i64 = self.vida as i64 - efectivo;
            self.vida = if nueva < i32::MIN as i64 {
                i32::MIN
            } else {
                nueva as i32
            };
            estaba_vivo && self.vida <= 0
        } else {
            false
        }
    }

    /// Heals by `puntos`, never above `VIDA_MAXIMA`.
    pub fn recibir_curacion(&mut self, puntos: u32)
        ensures
            final(self)@ == (CombatienteModelo {
                vida: vida_tras_curacion(old(self)@.vida, puntos),
                ..old(self)@
            }),
            final(self)@.vida <= VIDA_MAXIMA,
    {
        let nueva: i64 = self.vida as i64 + puntos as i64;
        self.vida = if nueva > VIDA_MAXIMA as i64 {
            VIDA_MAXIMA
        } else {
            nueva as i32
        };
    }

    pub fn id(&self) -> (r: IdCombatiente)
        ensures
            r == self@.id,
    {
        self.id
    }

    pub fn esta_vivo(&self) -> (r: bool)
        ensures
            r == self@.vivo(),
    {
        self.vida > 0
    }

    /// Current health; whatever was done to the fighter, it never exceeds the maximum.
    pub fn vida(&self) -> (r: i32)
        ensures
            r == self@.vida,
            r <= VIDA_MAXIMA,
    {
        proof {
            use_type_invariant(self);
        }
        self.vida
    }

    pub fn ataque(&self) -> (r: u32)
        ensures
            r == self@.ataque,
    {
        self.arma.ataque()
    }

    pub fn proteccion(&self) -> (r: u32)
        ensures
            r == self@.proteccion,
    {
        match &self.armadura {
            Some(a) => a.proteccion(),
            None => 0,
        }
    }

    /// Asks the fighter's strategy for a target among `enemigos`; only the
    /// strategy's own memory changes.
    pub fn elegir_enemigo(&mut self, enemigos: &[&Combatiente]) -> (r: Option<IdCombatiente>)
        ensures
            (final(self)@.estrategia, r) == eleccion(old(self)@.estrategia, modelos(enemigos@)),
            final(self)@ == (CombatienteModelo { estrategia: final(self)@.estrategia, ..old(self)@ }),
    {
        proof {
            use_type_invariant(&*self);
        }
        let mut estrategia = Estrategia::AtacarAlPrimero(AtacarAlPrimero);
        std::mem::swap(&mut estrategia, &mut self.estrategia);
        let r = estrategia.elegir_enemigo(enemigos);
        self.estrategia = estrategia;
        r
    }
}

/// The models of a list of fighters.
pub open spec fn modelos(s: Seq<&Combatiente>) -> Seq<CombatienteModelo> {
    s.map_values(|c: &Combatiente| c@)
}

impl PartialEq for Combatiente {
    /// Two fighters are equal exactly when they have the same identifier.
    fn eq(&self, otro: &Combatiente) -> (r: bool) {
        self.id == otro.id
    }
}

impl vstd::std_specs::cmp::PartialEqSpecImpl for Combatiente {
    open spec fn obeys_eq_spec() -> bool {
        true
    }

    open spec fn eq_spec(&self, otro: &Combatiente) -> bool {
        self@.id == otro@.id
    }
}

} // verus!
