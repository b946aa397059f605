use vstd::prelude::*;

use std::collections::HashMap;

use crate::combatiente::{modelos, Combatiente, CombatienteModelo, IdCombatiente};

verus! {

broadcast use vstd::std_specs::hash::group_hash_axioms;

// ---------------------------------------------------------------------------
// What each strategy chooses, over the models of the candidates.
// ---------------------------------------------------------------------------

/// `AtacarAlPrimero`: the first candidate.
pub open spec fn eleccion_primero(s: Seq<CombatienteModelo>) -> Option<IdCombatiente> {
    if s.len() == 0 {
        None
    } else {
        Some(s[0].id)
    }
}

/// `k` is the first position of the lowest health in `s`.
pub open spec fn es_primer_minimo(s: Seq<CombatienteModelo>, k: int) -> bool {
    &&& 0 <= k < s.len()
    &&& forall|j: int| 0 <= j < s.len() ==> s[k].vida <= #[trigger] s[j].vida
    &&& forall|j: int| 0 <= j < k ==> #[trigger] s[j].vida > s[k].vida
}

/// `k` is the first position of the highest health in `s`.
pub open spec fn es_primer_maximo(s: Seq<CombatienteModelo>, k: int) -> bool {
    &&& 0 <= k < s.len()
    &&& forall|j: int| 0 <= j < s.len() ==> s[k].vida >= #[trigger] s[j].vida
    &&& forall|j: int| 0 <= j < k ==> #[trigger] s[j].vida < s[k].vida
}

/// `LenaDeArbolCaido`: the weakest candidate, the first of them on a tie.
pub open spec fn eleccion_mas_debil(s: Seq<CombatienteModelo>) -> Option<IdCombatiente> {
    if s.len() == 0 {
        None
    } else {
        Some(s[choose|k: int| es_primer_minimo(s, k)].id)
    }
}

/// `VosNoTeLaVasALlevarDeArriba`: the strongest candidate, the first of them on a tie.
pub open spec fn eleccion_mas_fuerte(s: Seq<CombatienteModelo>) -> Option<IdCombatiente> {
    if s.len() == 0 {
        None
    } else {
        Some(s[choose|k: int| es_primer_maximo(s, k)].id)
    }
}

/// How many times `HayParaTodos` has attacked `id` (never recorded: zero).
pub open spec fn veces_atacado(m: Map<IdCombatiente, usize>, id: IdCombatiente) -> usize {
    if m.contains_key(id) {
        m[id]
    } else {
        0
    }
}

/// The fewest recorded attacks among the candidates (zero when there are none).
pub open spec fn min_veces(m: Map<IdCombatiente, usize>, s: Seq<CombatienteModelo>) -> usize
    decreases s.len(),
{
    if s.len() == 0 {
        0
    } else if s.len() == 1 {
        veces_atacado(m, s[0].id)
    } else {
        let resto = min_veces(m, s.drop_last());
        let ultimo = veces_atacado(m, s.last().id);
        if ultimo < resto {
            ultimo
        } else {
            resto
        }
    }
}

/// Whether a candidate is among the least attacked of `s`.
pub open spec fn criterio_menos_atacado(m: Map<IdCombatiente, usize>, s: Seq<CombatienteModelo>) -> spec_fn(CombatienteModelo) -> bool {
    |c: CombatienteModelo| veces_atacado(m, c.id) == min_veces(m, s)
}

/// The least attacked candidates, in their order.
pub open spec fn menos_atacados(m: Map<IdCombatiente, usize>, s: Seq<CombatienteModelo>) -> Seq<CombatienteModelo> {
    s.filter(criterio_menos_atacado(m, s))
}

/// One more attack on the record, saturating at the largest `usize`.
pub open spec fn uno_mas(v: usize) -> usize {
    if v < usize::MAX {
        (v + 1) as usize
    } else {
        v
    }
}

/// `HayParaTodos`: the weakest of the least attacked candidates, whose count
/// then goes up by one.
pub open spec fn eleccion_hay_para_todos(m: Map<IdCombatiente, usize>, s: Seq<CombatienteModelo>) -> (Map<IdCombatiente, usize>, Option<IdCombatiente>) {
    match eleccion_mas_debil(menos_atacados(m, s)) {
        Some(t) => (m.insert(t, uno_mas(min_veces(m, s))), Some(t)),
        None => (m, None),
    }
}

/// Some candidate of `s` has identifier `id`.
pub open spec fn contiene_id(s: Seq<CombatienteModelo>, id: IdCombatiente) -> bool {
    exists|k: int| 0 <= k < s.len() && s[k].id == id
}

/// The position of the list looked at in step `i` of a scan that starts at `indice`.
pub open spec fn posicion(largo: nat, indice: nat, i: int) -> int {
    (indice + i) % (largo as int)
}

/// The first step, from `i` on, at which the scan of `lista` finds a candidate.
pub open spec fn primer_presente(lista: Seq<IdCombatiente>, indice: nat, s: Seq<CombatienteModelo>, i: nat) -> Option<nat>
    decreases lista.len() - i,
{
    if i >= lista.len() {
        None
    } else if contiene_id(s, lista[posicion(lista.len(), indice, i as int)]) {
        Some(i)
    } else {
        primer_presente(lista, indice, s, i + 1)
    }
}

/// `EstasEnMiLista`: the first listed identifier found among the candidates,
/// scanning from the cursor and wrapping around; the cursor then moves just past it.
pub open spec fn eleccion_lista(lista: Seq<IdCombatiente>, indice: nat, s: Seq<CombatienteModelo>) -> (nat, Option<IdCombatiente>) {
    match primer_presente(lista, indice, s, 0) {
        Some(d) => {
            let p = posicion(lista.len(), indice, d as int);
            (((p + 1) % (lista.len() as int)) as nat, Some(lista[p]))
        },
        None => (indice, None),
    }
}

/// A strategy, with its memory.
pub enum EstrategiaModelo {
    AtacarAlPrimero,
    LenaDeArbolCaido,
    VosNoTeLaVasALlevarDeArriba,
    HayParaTodos { atacados: Map<IdCombatiente, usize> },
    EstasEnMiLista { lista: Seq<IdCombatiente>, indice: nat },
}

/// The strategy's memory afterwards, and the target it picks among `s`.
pub open spec fn eleccion(e: EstrategiaModelo, s: Seq<CombatienteModelo>) -> (EstrategiaModelo, Option<IdCombatiente>) {
    match e {
        EstrategiaModelo::AtacarAlPrimero => (e, eleccion_primero(s)),
        EstrategiaModelo::LenaDeArbolCaido => (e, eleccion_mas_debil(s)),
        EstrategiaModelo::VosNoTeLaVasALlevarDeArriba => (e, eleccion_mas_fuerte(s)),
        EstrategiaModelo::HayParaTodos { atacados } => {
            let (m, r) = eleccion_hay_para_todos(atacados, s);
            (EstrategiaModelo::HayParaTodos { atacados: m }, r)
        },
        EstrategiaModelo::EstasEnMiLista { lista, indice } => {
            let (i, r) = eleccion_lista(lista, indice, s);
            (EstrategiaModelo::EstasEnMiLista { lista, indice: i }, r)
        },
    }
}

// ---------------------------------------------------------------------------
// The strategies.
// ---------------------------------------------------------------------------

/// Attacks the first candidate.
#[derive(Clone, Copy, Debug)]
pub struct AtacarAlPrimero;

impl AtacarAlPrimero {
    pub fn elegir_enemigo(&self, enemigos: &[&Combatiente]) -> (r: Option<IdCombatiente>)
        ensures
            r == eleccion_primero(modelos(enemigos@)),
    {
        if enemigos.len() == 0 {
            None
        } else {
            Some(enemigos[0].id())
        }
    }
}

/// Attacks the weakest candidate (lowest health), the first of them on a tie.
#[derive(Clone, Copy, Debug)]
pub struct LenaDeArbolCaido;

impl LenaDeArbolCaido {
    pub fn elegir_enemigo(&self, enemigos: &[&Combatiente]) -> (r: Option<IdCombatiente>)
        ensures
            r == eleccion_mas_debil(modelos(enemigos@)),
    {
        let ghost s = modelos(enemigos@);
        if enemigos.len() == 0 {
            return None;
        }
        let mut k: usize = 0;
        let mut i: usize = 1;
        while i < enemigos.len()
            invariant
                s == modelos(enemigos@),
                1 <= i <= enemigos@.len(),
                k < i,
                es_primer_minimo(s.take(i as int), k as int),
            decreases enemigos@.len() - i,
        {
            if enemigos[k].vida() > enemigos[i].vida() {
                k = i;
            }
            i += 1;
        }
        proof {
            assert(s.take(i as int) =~= s);
            lema_primer_minimo_unico(s, k as int, choose|j: int| es_primer_minimo(s, j));
        }
        Some(enemigos[k].id())
    }
}

/// Attacks the strongest candidate (highest health), the first of them on a tie.
#[derive(Clone, Copy, Debug)]
pub struct VosNoTeLaVasALlevarDeArriba;

impl VosNoTeLaVasALlevarDeArriba {
    pub fn elegir_enemigo(&self, enemigos: &[&Combatiente]) -> (r: Option<IdCombatiente>)
        ensures
            r == eleccion_mas_fuerte(modelos(enemigos@)),
    {
        let ghost s = modelos(enemigos@);
        if enemigos.len() == 0 {
            return None;
        }
        let mut k: usize = 0;
        let mut i: usize = 1;
        while i < enemigos.len()
            invariant
                s == modelos(enemigos@),
                1 <= i <= enemigos@.len(),
                k < i,
                es_primer_maximo(s.take(i as int), k as int),
            decreases enemigos@.len() - i,
        {
            if enemigos[k].vida() < enemigos[i].vida() {
                k = i;
            }
            i += 1;
        }
        proof {
            assert(s.take(i as int) =~= s);
            lema_primer_maximo_unico(s, k as int, choose|j: int| es_primer_maximo(s, j));
        }
        Some(enemigos[k].id())
    }
}

/// Spreads the attacks: among the candidates it has attacked the fewest times,
/// attacks the weakest, and records one more attack on it.
#[derive(Debug)]
pub struct HayParaTodos {
    atacados: HashMap<IdCombatiente, usize>,
}

impl View for HayParaTodos {
    type V = Map<IdCombatiente, usize>;

    closed spec fn view(&self) -> Map<IdCombatiente, usize> {
        self.atacados@
    }
}

impl HayParaTodos {
    /// A strategy that has attacked no one yet.
    pub fn nuevo() -> (r: Self)
        ensures
            r@ == Map::<IdCombatiente, usize>::empty(),
    {
        HayParaTodos { atacados: HashMap::new() }
    }

    fn veces(&self, id: IdCombatiente) -> (r: usize)
        ensures
            r == veces_atacado(self@, id),
    {
        match self.atacados.get(&id) {
            Some(v) => *v,
            None => 0,
        }
    }

    pub fn elegir_enemigo(&mut self, enemigos: &[&Combatiente]) -> (r: Option<IdCombatiente>)
        ensures
            (final(self)@, r) == eleccion_hay_para_todos(old(self)@, modelos(enemigos@)),
            r is None <==> enemigos@.len() == 0,
    {
        let ghost m = self@;
        let ghost s = modelos(enemigos@);
        let mut minimo: usize = 0;
        let mut i: usize = 0;
        while i < enemigos.len()
            invariant
                m == self@,
                s == modelos(enemigos@),
                i <= enemigos@.len(),
                minimo == min_veces(m, s.take(i as int)),
            decreases enemigos@.len() - i,
        {
            let v = self.veces(enemigos[i].id());
            proof {
                assert(s.take(i + 1).drop_last() =~= s.take(i as int));
            }
            if i == 0 || v < minimo {
                minimo = v;
            }
            i += 1;
        }
        proof {
            assert(s.take(i as int) =~= s);
        }
        let mut menos: Vec<&Combatiente> = Vec::new();
        let mut j: usize = 0;
        while j < enemigos.len()
            invariant
                m == self@,
                s == modelos(enemigos@),
                j <= enemigos@.len(),
                minimo == min_veces(m, s),
                modelos(menos@) == s.take(j as int).filter(criterio_menos_atacado(m, s)),
            decreases enemigos@.len() - j,
        {
            let c = enemigos[j];
            let v = self.veces(c.id());
            proof {
                assert(s.take(j + 1) =~= s.take(j as int).push(s[j as int]));
                s.take(j as int).lemma_filter_push(s[j as int], criterio_menos_atacado(m, s));
            }
            if v == minimo {
                let ghost antes = menos@;
                menos.push(c);
                proof {
                    assert(modelos(menos@) =~= modelos(antes).push(c@));
                }
            }
            j += 1;
        }
        proof {
            assert(s.take(j as int) =~= s);
            if s.len() > 0 {
                lema_min_veces_alcanzado(m, s);
                let k = choose|k: int| 0 <= k < s.len() && veces_atacado(m, s[k].id) == min_veces(m, s);
                s.lemma_filter_contains(criterio_menos_atacado(m, s), k);
            }
        }
        let elegido = LenaDeArbolCaido.elegir_enemigo(menos.as_slice());
        match elegido {
            Some(t) => {
                let cuenta = if minimo < usize::MAX {
                    minimo + 1
                } else {
                    minimo
                };
                self.atacados.insert(t, cuenta);
                Some(t)
            },
            None => None,
        }
    }
}

/// Attacks by a list of preferred targets, scanned from a cursor that moves
/// just past each target found.
#[derive(Debug)]
pub struct EstasEnMiLista {
    lista: Vec<IdCombatiente>,
    indice: usize,
}

impl View for EstasEnMiLista {
    type V = (Seq<IdCombatiente>, nat);

    closed spec fn view(&self) -> (Seq<IdCombatiente>, nat) {
        (self.lista@, self.indice as nat)
    }
}

/// Whether some fighter of `enemigos` has identifier `id`.
fn esta_entre(enemigos: &[&Combatiente], id: IdCombatiente) -> (r: bool)
    ensures
        r == contiene_id(modelos(enemigos@), id),
{
    let mut i: usize = 0;
    while i < enemigos.len()
        invariant
            i <= enemigos@.len(),
            forall|k: int| 0 <= k < i ==> (#[trigger] enemigos@[k])@.id != id,
        decreases enemigos@.len() - i,
    {
        if enemigos[i].id() == id {
            proof {
                assert(modelos(enemigos@)[i as int].id == id);
            }
            return true;
        }
        i += 1;
    }
    proof {
        assert forall|k: int| 0 <= k < enemigos@.len() implies modelos(enemigos@)[k].id != id by {
            assert(enemigos@[k]@.id != id);
        }
    }
    false
}

impl EstasEnMiLista {
    /// A strategy with the given preference list and its cursor at the start.
    pub fn nuevo(lista: &[IdCombatiente]) -> (r: Self)
        ensures
            r@ == (lista@, 0nat),
    {
        EstasEnMiLista { lista: vstd::slice::slice_to_vec(lista), indice: 0 }
    }

    pub fn elegir_enemigo(&mut self, enemigos: &[&Combatiente]) -> (r: Option<IdCombatiente>)
        ensures
            (final(self)@.1, r) == eleccion_lista(old(self)@.0, old(self)@.1, modelos(enemigos@)),
            final(self)@.0 == old(self)@.0,
    {
        let ghost s = modelos(enemigos@);
        let largo = self.lista.len();
        if largo == 0 {
            return None;
        }
        let inicio = self.indice % largo;
        let mut i: usize = 0;
        while i < largo
            invariant
                s == modelos(enemigos@),
                largo == self.lista@.len(),
                largo > 0,
                inicio == self.indice % largo,
                i <= largo,
                *self == *old(self),
                primer_presente(self.lista@, self.indice as nat, s, 0) == primer_presente(self.lista@, self.indice as nat, s, i as nat),
            decreases largo - i,
        {
            let p: usize = if i < largo - inicio {
                inicio + i
            } else {
                i - (largo - inicio)
            };
            proof {
                lema_posicion(largo as nat, self.indice as nat, i as nat, inicio as nat, p as nat);
            }
            let id = self.lista[p];
            if esta_entre(enemigos, id) {
                let siguiente: usize = if p + 1 < largo {
                    p + 1
                } else {
                    0
                };
                proof {
                    if p + 1 < largo {
                        vstd::arithmetic::div_mod::lemma_small_mod((p + 1) as nat, largo as nat);
                    } else {
                        vstd::arithmetic::div_mod::lemma_mod_self_0(largo as int);
                    }
                }
                self.indice = siguiente;
                return Some(id);
            }
            i += 1;
        }
        None
    }
}

/// The step of a scan of a list of length `largo` that starts at `indice`
/// lands on `p`.
proof fn lema_posicion(largo: nat, indice: nat, i: nat, inicio: nat, p: nat)
    requires
        largo > 0,
        i < largo,
        inicio == indice as int % (largo as int),
        p as int == (if i < largo - inicio { (inicio + i) as int } else { i - (largo - inicio) }),
    ensures
        p == posicion(largo, indice, i as int),
        p < largo,
{
    let l = largo as int;
    vstd::arithmetic::div_mod::lemma_mod_bound(indice as int, l);
    vstd::arithmetic::div_mod::lemma_add_mod_noop(indice as int, i as int, l);
    vstd::arithmetic::div_mod::lemma_small_mod(i, largo);
    if i < largo - inicio {
        vstd::arithmetic::div_mod::lemma_small_mod(inicio + i, largo);
    } else {
        vstd::arithmetic::div_mod::lemma_mod_add_multiples_vanish((inicio + i - l) as int, l);
        vstd::arithmetic::div_mod::lemma_small_mod((inicio + i - l) as nat, largo);
    }
}

/// A strategy of any kind, owned by one fighter.
#[derive(Debug)]
pub enum Estrategia {
    AtacarAlPrimero(AtacarAlPrimero),
    LenaDeArbolCaido(LenaDeArbolCaido),
    VosNoTeLaVasALlevarDeArriba(VosNoTeLaVasALlevarDeArriba),
    HayParaTodos(HayParaTodos),
    EstasEnMiLista(EstasEnMiLista),
}

impl View for Estrategia {
    type V = EstrategiaModelo;

    open spec fn view(&self) -> EstrategiaModelo {
        match self {
            Estrategia::AtacarAlPrimero(_) => EstrategiaModelo::AtacarAlPrimero,
            Estrategia::LenaDeArbolCaido(_) => EstrategiaModelo::LenaDeArbolCaido,
            Estrategia::VosNoTeLaVasALlevarDeArriba(_) => EstrategiaModelo::VosNoTeLaVasALlevarDeArriba,
            Estrategia::HayParaTodos(h) => EstrategiaModelo::HayParaTodos { atacados: h@ },
            Estrategia::EstasEnMiLista(l) => EstrategiaModelo::EstasEnMiLista { lista: l@.0, indice: l@.1 },
        }
    }
}

impl Estrategia {
    /// Picks a target among `enemigos` with the strategy it holds.
    pub fn elegir_enemigo(&mut self, enemigos: &[&Combatiente]) -> (r: Option<IdCombatiente>)
        ensures
            (final(self)@, r) == eleccion(old(self)@, modelos(enemigos@)),
    {
        match self {
            Estrategia::AtacarAlPrimero(e) => e.elegir_enemigo(enemigos),
            Estrategia::LenaDeArbolCaido(e) => e.elegir_enemigo(enemigos),
            Estrategia::VosNoTeLaVasALlevarDeArriba(e) => e.elegir_enemigo(enemigos),
            Estrategia::HayParaTodos(e) => e.elegir_enemigo(enemigos),
            Estrategia::EstasEnMiLista(e) => e.elegir_enemigo(enemigos),
        }
    }
}

// ---------------------------------------------------------------------------
// Facts about the choices.
// ---------------------------------------------------------------------------

proof fn lema_primer_minimo_unico(s: Seq<CombatienteModelo>, a: int, b: int)
    requires
        es_primer_minimo(s, a),
    ensures
        es_primer_minimo(s, b) ==> a == b,
{
    if es_primer_minimo(s, b) && a != b {
        if a < b {
            assert(s[a].vida > s[b].vida);
        } else {
            assert(s[b].vida > s[a].vida);
        }
    }
}

proof fn lema_primer_maximo_unico(s: Seq<CombatienteModelo>, a: int, b: int)
    requires
        es_primer_maximo(s, a),
    ensures
        es_primer_maximo(s, b) ==> a == b,
{
    if es_primer_maximo(s, b) && a != b {
        if a < b {
            assert(s[a].vida < s[b].vida);
        } else {
            assert(s[b].vida < s[a].vida);
        }
    }
}

proof fn lema_min_veces_alcanzado(m: Map<IdCombatiente, usize>, s: Seq<CombatienteModelo>)
    requires
        s.len() > 0,
    ensures
        exists|k: int| 0 <= k < s.len() && veces_atacado(m, s[k].id) == min_veces(m, s),
    decreases s.len(),
{
    if s.len() == 1 {
        assert(veces_atacado(m, s[0].id) == min_veces(m, s));
    } else {
        let r = s.drop_last();
        lema_min_veces_alcanzado(m, r);
        let k = choose|k: int| 0 <= k < r.len() && veces_atacado(m, r[k].id) == min_veces(m, r);
        assert(r[k] == s[k]);
        if veces_atacado(m, s.last().id) < min_veces(m, r) {
            assert(veces_atacado(m, s[s.len() - 1].id) == min_veces(m, s));
        } else {
            assert(veces_atacado(m, s[k].id) == min_veces(m, s));
        }
    }
}

proof fn lema_existe_primer_minimo(s: Seq<CombatienteModelo>)
    requires
        s.len() > 0,
    ensures
        exists|k: int| es_primer_minimo(s, k),
    decreases s.len(),
{
    if s.len() == 1 {
        assert(es_primer_minimo(s, 0));
    } else {
        let r = s.drop_last();
        lema_existe_primer_minimo(r);
        let k = choose|k: int| es_primer_minimo(r, k);
        assert(r[k] == s[k]);
        if s[k].vida <= s.last().vida {
            assert forall|j: int| 0 <= j < s.len() implies s[k].vida <= #[trigger] s[j].vida by {
                if j < r.len() {
                    assert(r[j] == s[j]);
                }
            }
            assert forall|j: int| 0 <= j < k implies #[trigger] s[j].vida > s[k].vida by {
                assert(r[j] == s[j]);
            }
            assert(es_primer_minimo(s, k));
        } else {
            let u = s.len() - 1;
            assert forall|j: int| 0 <= j < s.len() implies s[u].vida <= #[trigger] s[j].vida by {
                if j < r.len() {
                    assert(r[j] == s[j]);
                    assert(r[k].vida <= r[j].vida);
                }
            }
            assert forall|j: int| 0 <= j < u implies #[trigger] s[j].vida > s[u].vida by {
                assert(r[j] == s[j]);
                assert(r[k].vida <= r[j].vida);
            }
            assert(es_primer_minimo(s, u));
        }
    }
}

proof fn lema_existe_primer_maximo(s: Seq<CombatienteModelo>)
    requires
        s.len() > 0,
    ensures
        exists|k: int| es_primer_maximo(s, k),
    decreases s.len(),
{
    if s.len() == 1 {
        assert(es_primer_maximo(s, 0));
    } else {
        let r = s.drop_last();
        lema_existe_primer_maximo(r);
        let k = choose|k: int| es_primer_maximo(r, k);
        assert(r[k] == s[k]);
        if s[k].vida >= s.last().vida {
            assert forall|j: int| 0 <= j < s.len() implies s[k].vida >= #[trigger] s[j].vida by {
                if j < r.len() {
                    assert(r[j] == s[j]);
                }
            }
            assert forall|j: int| 0 <= j < k implies #[trigger] s[j].vida < s[k].vida by {
                assert(r[j] == s[j]);
            }
            assert(es_primer_maximo(s, k));
        } else {
            let u = s.len() - 1;
            assert forall|j: int| 0 <= j < s.len() implies s[u].vida >= #[trigger] s[j].vida by {
                if j < r.len() {
                    assert(r[j] == s[j]);
                    assert(r[k].vida >= r[j].vida);
                }
            }
            assert forall|j: int| 0 <= j < u implies #[trigger] s[j].vida < s[u].vida by {
                assert(r[j] == s[j]);
                assert(r[k].vida >= r[j].vida);
            }
            assert(es_primer_maximo(s, u));
        }
    }
}

proof fn lema_presente_en_candidatos(lista: Seq<IdCombatiente>, indice: nat, s: Seq<CombatienteModelo>, i: nat)
    requires
        primer_presente(lista, indice, s, i) is Some,
    ensures
        ({
            let d = primer_presente(lista, indice, s, i)->0;
            &&& d < lista.len()
            &&& contiene_id(s, lista[posicion(lista.len(), indice, d as int)])
        }),
    decreases lista.len() - i,
{
    if i < lista.len() && !contiene_id(s, lista[posicion(lista.len(), indice, i as int)]) {
        lema_presente_en_candidatos(lista, indice, s, i + 1);
    }
}

/// Whatever a strategy picks is one of the candidates it was shown.
pub proof fn lema_eleccion_entre_candidatos(e: EstrategiaModelo, s: Seq<CombatienteModelo>)
    ensures
        eleccion(e, s).1 matches Some(t) ==> contiene_id(s, t),
{
    match e {
        EstrategiaModelo::AtacarAlPrimero => {
            if s.len() > 0 {
                assert(contiene_id(s, s[0].id));
            }
        },
        EstrategiaModelo::LenaDeArbolCaido => {
            if s.len() > 0 {
                lema_existe_primer_minimo(s);
                let k = choose|k: int| es_primer_minimo(s, k);
                assert(contiene_id(s, s[k].id));
            }
        },
        EstrategiaModelo::VosNoTeLaVasALlevarDeArriba => {
            if s.len() > 0 {
                lema_existe_primer_maximo(s);
                let k = choose|k: int| es_primer_maximo(s, k);
                assert(contiene_id(s, s[k].id));
            }
        },
        EstrategiaModelo::HayParaTodos { atacados } => {
            let f = menos_atacados(atacados, s);
            if f.len() > 0 {
                lema_existe_primer_minimo(f);
                let k = choose|k: int| es_primer_minimo(f, k);
                assert(f.contains(f[k]));
                s.lemma_filter_contains_rev(criterio_menos_atacado(atacados, s), f[k]);
                let q = choose|q: int| 0 <= q < s.len() && s[q] == f[k];
                assert(contiene_id(s, s[q].id));
            }
        },
        EstrategiaModelo::EstasEnMiLista { lista, indice } => {
            if primer_presente(lista, indice, s, 0) is Some {
                lema_presente_en_candidatos(lista, indice, s, 0);
            }
        },
    }
}

/// With the preference list `[a, c]` and both among the candidates, the picks
/// alternate: from the start of the list `a` is chosen and the cursor moves to
/// `c`; from there `c` is chosen and the cursor goes back to `a`.
pub proof fn lista_de_dos_alterna(a: IdCombatiente, c: IdCombatiente, s: Seq<CombatienteModelo>)
    requires
        contiene_id(s, a),
        contiene_id(s, c),
    ensures
        eleccion_lista(seq![a, c], 0, s) == (1nat, Some(a)),
        eleccion_lista(seq![a, c], 1, s) == (0nat, Some(c)),
{
    let l = seq![a, c];
    assert(posicion(2, 0, 0) == 0);
    assert(posicion(2, 1, 0) == 1);
    assert(l[0] == a && l[1] == c);
    assert(primer_presente(l, 0, s, 0) == Some(0nat));
    assert(primer_presente(l, 1, s, 0) == Some(0nat));
    assert((0int + 1) % 2 == 1);
    assert((1int + 1) % 2 == 0);
}

} // verus!
