use vstd::prelude::*;

use std::collections::HashMap;

use crate::combatiente::{modelos, vida_tras_dano, Arma, Combatiente, CombatienteModelo, IdCombatiente};
use crate::estrategia::{contiene_id, eleccion, lema_eleccion_entre_candidatos, Estrategia};

verus! {

broadcast use vstd::std_specs::hash::group_hash_axioms;

/// The fighters, in turn order, and who has whom as an enemy.
pub struct ArenaModelo {
    pub combatientes: Seq<CombatienteModelo>,
    pub enemistades: Map<IdCombatiente, Seq<IdCombatiente>>,
}

/// The enemies registered for `id`, in the order they were added.
pub open spec fn enemigos_de(m: Map<IdCombatiente, Seq<IdCombatiente>>, id: IdCombatiente) -> Seq<IdCombatiente> {
    if m.contains_key(id) {
        m[id]
    } else {
        Seq::empty()
    }
}

/// No fighter is its own enemy, and no enemy is listed twice.
pub open spec fn bien_formada(a: ArenaModelo) -> bool {
    forall|id: IdCombatiente|
        #![trigger enemigos_de(a.enemistades, id)]
        !enemigos_de(a.enemistades, id).contains(id) && enemigos_de(a.enemistades, id).no_duplicates()
}

/// The arena after `enemigo` is added to the enemies of `id`: nothing changes
/// when either is not a registered fighter, when they are the same, or when
/// `enemigo` is already listed.
pub open spec fn con_enemigo(a: ArenaModelo, id: IdCombatiente, enemigo: IdCombatiente) -> ArenaModelo {
    if contiene_id(a.combatientes, id) && contiene_id(a.combatientes, enemigo) && id != enemigo
        && !enemigos_de(a.enemistades, id).contains(enemigo) {
        ArenaModelo {
            enemistades: a.enemistades.insert(id, enemigos_de(a.enemistades, id).push(enemigo)),
            ..a
        }
    } else {
        a
    }
}

/// The arena: owns its fighters, whose order is the turn order, and the
/// directed enmities between them.
pub struct Arena {
    combatientes: Vec<Combatiente>,
    enemistades: HashMap<IdCombatiente, Vec<IdCombatiente>>,
}

impl View for Arena {
    type V = ArenaModelo;

    closed spec fn view(&self) -> ArenaModelo {
        ArenaModelo {
            combatientes: self.combatientes@.map_values(|c: Combatiente| c@),
            enemistades: self.enemistades@.map_values(|v: Vec<IdCombatiente>| v@),
        }
    }
}

/// Whether `v` holds `x`.
fn contiene(v: &Vec<IdCombatiente>, x: IdCombatiente) -> (r: bool)
    ensures
        r == v@.contains(x),
{
    let mut i: usize = 0;
    while i < v.len()
        invariant
            i <= v@.len(),
            forall|k: int| 0 <= k < i ==> v@[k] != x,
        decreases v@.len() - i,
    {
        if v[i] == x {
            assert(v@[i as int] == x);
            return true;
        }
        i += 1;
    }
    false
}

impl Arena {
    /// An arena with no fighters and no enmities.
    pub fn nueva() -> (r: Arena)
        ensures
            r@.combatientes == Seq::<CombatienteModelo>::empty(),
            r@.enemistades == Map::<IdCombatiente, Seq<IdCombatiente>>::empty(),
            bien_formada(r@),
    {
        let r = Arena { combatientes: Vec::new(), enemistades: HashMap::new() };
        assert(r@.combatientes =~= Seq::<CombatienteModelo>::empty());
        assert(r@.enemistades =~= Map::<IdCombatiente, Seq<IdCombatiente>>::empty());
        r
    }

    /// Adds a fighter at the end of the turn order and returns its identifier.
    pub fn agregar_combatiente(&mut self, combatiente: Combatiente) -> (r: IdCombatiente)
        ensures
            final(self)@ == (ArenaModelo {
                combatientes: old(self)@.combatientes.push(combatiente@),
                ..old(self)@
            }),
            r == combatiente@.id,
    {
        let id = combatiente.id();
        self.combatientes.push(combatiente);
        assert(self@.combatientes =~= old(self)@.combatientes.push(combatiente@));
        id
    }

    /// Adds a fighter with fists, leather armor and the given strategy; returns
    /// its identifier.
    pub fn nuevo_combatiente_con_estrategia(&mut self, estrategia: Estrategia) -> (r: IdCombatiente)
        ensures
            final(self)@.enemistades == old(self)@.enemistades,
            final(self)@.combatientes.len() == old(self)@.combatientes.len() + 1,
            final(self)@.combatientes.drop_last() == old(self)@.combatientes,
            final(self)@.combatientes.last().id == r,
            final(self)@.combatientes.last().vida == crate::combatiente::VIDA_MAXIMA,
            final(self)@.combatientes.last().ataque == 2,
            final(self)@.combatientes.last().proteccion == 3,
            final(self)@.combatientes.last().estrategia == estrategia@,
    {
        let nuevo = Combatiente::nuevo(Arma::punos(), estrategia);
        let r = self.agregar_combatiente(nuevo);
        assert(self@.combatientes.drop_last() =~= old(self)@.combatientes);
        r
    }

    /// The first fighter with identifier `id`, if any.
    pub fn combatiente_con_id(&self, id: IdCombatiente) -> (r: Option<&Combatiente>)
        ensures
            r.is_some() == contiene_id(self@.combatientes, id),
            r matches Some(c) ==> exists|k: int|
                0 <= k < self@.combatientes.len() && self@.combatientes[k] == c@
                    && c@.id == id && forall|j: int| 0 <= j < k ==> (#[trigger] self@.combatientes[j]).id != id,
    {
        let mut i: usize = 0;
        while i < self.combatientes.len()
            invariant
                i <= self@.combatientes.len(),
                self@.combatientes.len() == self.combatientes@.len(),
                forall|j: int| 0 <= j < i ==> (#[trigger] self@.combatientes[j]).id != id,
            decreases self.combatientes@.len() - i,
        {
            if self.combatientes[i].id() == id {
                assert(self@.combatientes[i as int] == self.combatientes@[i as int]@);
                return Some(&self.combatientes[i]);
            }
            i += 1;
        }
        None
    }

    /// Makes `id_enemigo` an enemy of `id_combatiente`. Nothing happens when
    /// either is not a registered fighter, when they are the same fighter, or
    /// when the enmity is already there.
    pub fn agregar_enemigo_de_combatiente(&mut self, id_combatiente: IdCombatiente, id_enemigo: IdCombatiente)
        requires
            bien_formada(old(self)@),
        ensures
            final(self)@ == con_enemigo(old(self)@, id_combatiente, id_enemigo),
            bien_formada(final(self)@),
    {
        if self.combatiente_con_id(id_combatiente).is_none() {
            return;
        }
        if self.combatiente_con_id(id_enemigo).is_none() {
            return;
        }
        if id_combatiente != id_enemigo {
            let mut lista = self.enemigos_de(id_combatiente);
            if !contiene(&lista, id_enemigo) {
                lista.push(id_enemigo);
                let ghost l = lista@;
                self.enemistades.insert(id_combatiente, lista);
                proof {
                    let a = old(self)@;
                    let nuevo = con_enemigo(a, id_combatiente, id_enemigo);
                    assert(self@.enemistades =~= nuevo.enemistades);
                    assert(self@.combatientes =~= nuevo.combatientes);
                    assert forall|id: IdCombatiente| #![trigger enemigos_de(self@.enemistades, id)]
                        !enemigos_de(self@.enemistades, id).contains(id) && enemigos_de(self@.enemistades, id).no_duplicates() by {
                        let previa = enemigos_de(a.enemistades, id);
                        assert(!previa.contains(id) && previa.no_duplicates());
                        if id == id_combatiente {
                            assert(l == enemigos_de(a.enemistades, id).push(id_enemigo));
                            assert(l.last() == id_enemigo);
                            assert forall|x: int, y: int| 0 <= x < y < l.len() implies l[x] != l[y] by {
                                if y == l.len() - 1 {
                                    assert(enemigos_de(a.enemistades, id)[x] == l[x]);
                                }
                            }
                            if l.contains(id) {
                                let k = choose|k: int| 0 <= k < l.len() && l[k] == id;
                                if k < l.len() - 1 {
                                    assert(enemigos_de(a.enemistades, id)[k] == id);
                                }
                            }
                        }
                    }
                }
            }
        }
    }

    /// A battle about to start: the first fighter's turn, no one knocked out.
    pub fn estado_inicial(&self) -> (r: EstadoBatalla)
        ensures
            r@ == estado_inicial(self@.combatientes.len()),
    {
        let n = self.combatientes.len();
        let mut fuera: Vec<bool> = Vec::new();
        let mut p: usize = 0;
        while p < n
            invariant
                p <= n,
                n == self@.combatientes.len(),
                fuera@ == Seq::new(p as nat, |q: int| false),
            decreases n - p,
        {
            fuera.push(false);
            p += 1;
            assert(fuera@ =~= Seq::new(p as nat, |q: int| false));
        }
        EstadoBatalla { indice: 0, fuera_de_combate: fuera }
    }

    /// Plays one turn; returns the fighters that died in it.
    pub fn jugar_turno(&mut self, estado: &mut EstadoBatalla) -> (muertos: Vec<IdCombatiente>)
        requires
            bien_formada(old(self)@),
            estado_valido(old(self)@.combatientes.len(), old(estado)@),
        ensures
            (final(self)@, final(estado)@, muertos@) == paso(old(self)@, old(estado)@),
            final(self)@.enemistades == old(self)@.enemistades,
            final(self)@.combatientes.len() == old(self)@.combatientes.len(),
            estado_valido(old(self)@.combatientes.len(), final(estado)@),
    {
        let ghost a = self@;
        let ghost cs = self@.combatientes;
        let n = self.combatientes.len();
        let i = estado.indice;
        let siguiente: usize = if i + 1 < n {
            i + 1
        } else {
            0
        };
        proof {
            if i + 1 < n {
                vstd::arithmetic::div_mod::lemma_small_mod((i + 1) as nat, n as nat);
            } else {
                vstd::arithmetic::div_mod::lemma_mod_self_0(n as int);
            }
            assert(cs[i as int] == self.combatientes@[i as int]@);
        }
        if !self.combatientes[i].esta_vivo() {
            estado.fuera_de_combate.set(i, true);
            estado.indice = siguiente;
            return Vec::new();
        }
        let id = self.combatientes[i].id();
        let ids_enemigos = self.enemigos_de(id);
        let mut atacante = self.combatientes.remove(i);
        let ghost resto = self.combatientes@;
        let ghost pred = es_candidato(a, id);
        let objetivo = {
            let mut cands: Vec<&Combatiente> = Vec::new();
            let mut j: usize = 0;
            while j < self.combatientes.len()
                invariant
                    self.combatientes@ == resto,
                    j <= resto.len(),
                    ids_enemigos@ == enemigos_de(a.enemistades, id),
                    pred == es_candidato(a, id),
                    modelos(cands@) == resto.map_values(|c: Combatiente| c@).take(j as int).filter(pred),
                decreases resto.len() - j,
            {
                let c = &self.combatientes[j];
                let ghost rm = resto.map_values(|c: Combatiente| c@);
                proof {
                    assert(rm.take(j + 1) =~= rm.take(j as int).push(c@));
                    rm.take(j as int).lemma_filter_push(c@, pred);
                }
                if contiene(&ids_enemigos, c.id()) && c.esta_vivo() {
                    let ghost antes = cands@;
                    cands.push(c);
                    proof {
                        assert(modelos(cands@) =~= modelos(antes).push(c@));
                    }
                }
                j += 1;
            }
            proof {
                let rm = resto.map_values(|c: Combatiente| c@);
                assert(rm.take(j as int) =~= rm);
                assert(rm =~= cs.take(i as int) + cs.skip(i + 1));
                assert(cs =~= cs.take(i as int) + seq![cs[i as int]] + cs.skip(i + 1));
                Seq::filter_distributes_over_add(cs.take(i as int), cs.skip(i + 1), pred);
                Seq::filter_distributes_over_add(cs.take(i as int) + seq![cs[i as int]], cs.skip(i + 1), pred);
                Seq::filter_distributes_over_add(cs.take(i as int), seq![cs[i as int]], pred);
                Seq::<CombatienteModelo>::empty().lemma_filter_push(cs[i as int], pred);
                reveal(Seq::filter);
                assert(Seq::<CombatienteModelo>::empty().push(cs[i as int]) =~= seq![cs[i as int]]);
                assert(!enemigos_de(a.enemistades, id).contains(id));
                assert(modelos(cands@) =~= candidatos(a, id));
            }
            atacante.elegir_enemigo(cands.as_slice())
        };
        self.combatientes.insert(i, atacante);
        let ghost cs1 = self@.combatientes;
        proof {
            assert(cs1 =~= cs.update(i as int, atacante@));
        }
        let mut muertos: Vec<IdCombatiente> = Vec::new();
        match objetivo {
            None => {
                estado.fuera_de_combate.set(i, true);
            },
            Some(t) => {
                if contiene(&ids_enemigos, t) {
                    let dano = self.combatientes[i].ataque();
                    let mut j: usize = 0;
                    while j < n
                        invariant
                            n == self.combatientes@.len(),
                            n == cs1.len(),
                            n == cs.len(),
                            i < n,
                            j <= n,
                            dano == cs[i as int].ataque,
                            self@.enemistades == a.enemistades,
                            self@.combatientes =~= tras_ataque(cs1.take(j as int), t, dano) + cs1.skip(j as int),
                            muertos@ == muertes(cs1.take(j as int), t, dano),
                        decreases n - j,
                    {
                        let ghost c = cs1[j as int];
                        let ghost previo = self@.combatientes;
                        proof {
                            assert(cs1.take(j + 1) =~= cs1.take(j as int).push(c));
                            cs1.take(j as int).lemma_filter_push(c, muere_por(t, dano));
                            assert(previo[j as int] == cs1.skip(j as int)[0]);
                            assert(self.combatientes@[j as int]@ == previo[j as int]);
                        }
                        if self.combatientes[j].id() == t {
                            let murio = self.combatientes[j].recibir_dano(dano);
                            if murio {
                                muertos.push(t);
                            }
                        }
                        proof {
                            assert(self@.combatientes =~= previo.update(j as int, golpeado(c, t, dano)));
                            assert(tras_ataque(cs1.take(j + 1), t, dano) =~= tras_ataque(cs1.take(j as int), t, dano).push(golpeado(c, t, dano)));
                            assert(self@.combatientes =~= tras_ataque(cs1.take(j + 1), t, dano) + cs1.skip(j + 1));
                            assert(muertos@ =~= muertes(cs1.take(j + 1), t, dano));
                        }
                        j += 1;
                    }
                    proof {
                        assert(cs1.take(n as int) =~= cs1);
                        assert(cs1.skip(n as int) =~= Seq::<CombatienteModelo>::empty());
                    }
                }
            },
        }
        estado.indice = siguiente;
        proof {
            assert(self@.enemistades == a.enemistades);
        }
        muertos
    }

    /// Whether every attack between enemies gets through the armor, which is
    /// what `comenzar_batalla` needs to be sure to end.
    pub fn todo_ataque_hiere(&self) -> (r: bool)
        ensures
            r == todo_ataque_hiere(self@),
    {
        let ghost a = self@;
        let n = self.combatientes.len();
        let mut i: usize = 0;
        while i < n
            invariant
                a == self@,
                n == a.combatientes.len(),
                i <= n,
                forall|x: int, y: int|
                    0 <= x < i && 0 <= y < n
                        && #[trigger] enemigos_de(a.enemistades, a.combatientes[x].id).contains(#[trigger] a.combatientes[y].id)
                        ==> a.combatientes[x].ataque > a.combatientes[y].proteccion,
            decreases n - i,
        {
            let atacante = &self.combatientes[i];
            assert(a.combatientes[i as int] == self.combatientes@[i as int]@);
            let enemigos = self.enemigos_de(atacante.id());
            let mut j: usize = 0;
            while j < n
                invariant
                    a == self@,
                    n == a.combatientes.len(),
                    i < n,
                    j <= n,
                    *atacante == self.combatientes@[i as int],
                    enemigos@ == enemigos_de(a.enemistades, a.combatientes[i as int].id),
                    forall|x: int, y: int|
                        0 <= x < i && 0 <= y < n
                            && #[trigger] enemigos_de(a.enemistades, a.combatientes[x].id).contains(#[trigger] a.combatientes[y].id)
                            ==> a.combatientes[x].ataque > a.combatientes[y].proteccion,
                    forall|y: int|
                        0 <= y < j
                            && #[trigger] enemigos_de(a.enemistades, a.combatientes[i as int].id).contains(a.combatientes[y].id)
                            ==> a.combatientes[i as int].ataque > a.combatientes[y].proteccion,
                decreases n - j,
            {
                let otro = &self.combatientes[j];
                assert(a.combatientes[j as int] == self.combatientes@[j as int]@);
                if contiene(&enemigos, otro.id()) && atacante.ataque() <= otro.proteccion() {
                    return false;
                }
                j += 1;
            }
            i += 1;
        }
        true
    }

    /// Runs the battle to its end: turns are played, from the first fighter on
    /// and cyclically, until every fighter is knocked out. Returns the fighters
    /// that died, in the order they fell.
    pub fn comenzar_batalla(&mut self) -> (muertos: Vec<IdCombatiente>)
        requires
            bien_formada(old(self)@),
            old(self)@.combatientes.len() > 0,
            todo_ataque_hiere(old(self)@),
        ensures
            exists|k: nat|
                termina_en(old(self)@, k)
                && #[trigger] ejecutar(old(self)@, estado_inicial(old(self)@.combatientes.len()), k).0 == final(self)@
                && ejecutar(old(self)@, estado_inicial(old(self)@.combatientes.len()), k).2 == muertos@,
            final(self)@.enemistades == old(self)@.enemistades,
            final(self)@.combatientes.len() == old(self)@.combatientes.len(),
    {
        let ghost a0 = self@;
        let n = self.combatientes.len();
        let mut estado = self.estado_inicial();
        let ghost e0 = estado@;
        let mut muertos: Vec<IdCombatiente> = Vec::new();
        let ghost mut k: nat = 0;
        assert(!terminada(e0)) by {
            assert(!e0.fuera_de_combate[0]);
        }
        loop
            invariant
                a0 == old(self)@,
                self@.enemistades == a0.enemistades,
                n == a0.combatientes.len(),
                n > 0,
                e0 == estado_inicial(n as nat),
                bien_formada(self@),
                todo_ataque_hiere(self@),
                self@.combatientes.len() == n,
                estado_valido(n as nat, estado@),
                estado@.indice == 0,
                (self@, estado@, muertos@) == ejecutar(a0, e0, k),
                forall|j: nat| j <= k ==> !terminada(#[trigger] ejecutar(a0, e0, j).1),
            decreases potencial(self@, estado@),
        {
            let ghost p0 = potencial(self@, estado@);
            assert(!terminada(ejecutar(a0, e0, k).1));
            assert(!terminada(estado@));
            let ghost q0 = choose|q: int| 0 <= q < n && !estado@.fuera_de_combate[q];
            let mut i: usize = 0;
            while i < n
                invariant
                    a0 == old(self)@,
                    self@.enemistades == a0.enemistades,
                    n == a0.combatientes.len(),
                    n > 0,
                    e0 == estado_inicial(n as nat),
                    bien_formada(self@),
                    todo_ataque_hiere(self@),
                    self@.combatientes.len() == n,
                    estado_valido(n as nat, estado@),
                    i <= n,
                    i < n ==> estado@.indice == i,
                    i == n ==> estado@.indice == 0,
                    0 <= q0 < n,
                    (self@, estado@, muertos@) == ejecutar(a0, e0, k),
                    forall|j: nat| j <= k ==> !terminada(#[trigger] ejecutar(a0, e0, j).1),
                    potencial(self@, estado@) <= p0,
                    potencial(self@, estado@) < p0 || (i <= q0 && !estado@.fuera_de_combate[q0]),
                decreases n - i,
            {
                let ghost a1 = self@;
                let ghost e1 = estado@;
                let mut nuevos = self.jugar_turno(&mut estado);
                proof {
                    lema_paso(a1, e1);
                    if i + 1 < n {
                        vstd::arithmetic::div_mod::lemma_small_mod((i + 1) as nat, n as nat);
                    } else {
                        vstd::arithmetic::div_mod::lemma_mod_self_0(n as int);
                    }
                    k = k + 1;
                }
                muertos.append(&mut nuevos);
                assert((self@, estado@, muertos@) == ejecutar(a0, e0, k));
                if estado.terminada() {
                    assert(termina_en(a0, k));
                    assert(termina_en(a0, k) && ejecutar(a0, estado_inicial(n as nat), k).0 == self@
                        && ejecutar(a0, estado_inicial(n as nat), k).2 == muertos@);
                    return muertos;
                }
                assert forall|j: nat| j <= k implies !terminada(#[trigger] ejecutar(a0, e0, j).1) by {
                    if j < k {
                    }
                }
                i += 1;
            }
        }
    }

    /// The enemies of `id_combatiente`, in the order they were added.
    pub fn enemigos_de(&self, id_combatiente: IdCombatiente) -> (r: Vec<IdCombatiente>)
        ensures
            r@ == enemigos_de(self@.enemistades, id_combatiente),
    {
        match self.enemistades.get(&id_combatiente) {
            Some(v) => vstd::slice::slice_to_vec(v.as_slice()),
            None => Vec::new(),
        }
    }
}

// ---------------------------------------------------------------------------
// The battle.
// ---------------------------------------------------------------------------

/// Where a battle stands: whose turn it is, and which fighters (by position in
/// the turn order) are knocked out, dead or left without a target.
pub struct EstadoModelo {
    pub indice: nat,
    pub fuera_de_combate: Seq<bool>,
}

/// The state fits an arena of `n` fighters.
pub open spec fn estado_valido(n: nat, e: EstadoModelo) -> bool {
    e.indice < n && e.fuera_de_combate.len() == n
}

/// First fighter's turn, no one knocked out.
pub open spec fn estado_inicial(n: nat) -> EstadoModelo {
    EstadoModelo { indice: 0, fuera_de_combate: Seq::new(n, |p: int| false) }
}

/// The battle is over: every fighter is knocked out.
pub open spec fn terminada(e: EstadoModelo) -> bool {
    forall|p: int| 0 <= p < e.fuera_de_combate.len() ==> #[trigger] e.fuera_de_combate[p]
}

/// Whether a fighter is a living enemy of `id`.
pub open spec fn es_candidato(a: ArenaModelo, id: IdCombatiente) -> spec_fn(CombatienteModelo) -> bool {
    |c: CombatienteModelo| enemigos_de(a.enemistades, id).contains(c.id) && c.vivo()
}

/// The living enemies of `id`, in turn order.
pub open spec fn candidatos(a: ArenaModelo, id: IdCombatiente) -> Seq<CombatienteModelo> {
    a.combatientes.filter(es_candidato(a, id))
}

/// A fighter after an attack of `puntos` on `objetivo`.
pub open spec fn golpeado(c: CombatienteModelo, objetivo: IdCombatiente, puntos: u32) -> CombatienteModelo {
    if c.id == objetivo {
        CombatienteModelo { vida: vida_tras_dano(c.vida, puntos, c.proteccion), ..c }
    } else {
        c
    }
}

/// Every fighter with identifier `objetivo` takes the hit.
pub open spec fn tras_ataque(cs: Seq<CombatienteModelo>, objetivo: IdCombatiente, puntos: u32) -> Seq<CombatienteModelo> {
    cs.map_values(|c: CombatienteModelo| golpeado(c, objetivo, puntos))
}

/// Whether the attack kills this fighter.
pub open spec fn muere_por(objetivo: IdCombatiente, puntos: u32) -> spec_fn(CombatienteModelo) -> bool {
    |c: CombatienteModelo| c.vivo() && !golpeado(c, objetivo, puntos).vivo()
}

/// The fighters the attack kills, in turn order.
pub open spec fn muertes(cs: Seq<CombatienteModelo>, objetivo: IdCombatiente, puntos: u32) -> Seq<IdCombatiente> {
    cs.filter(muere_por(objetivo, puntos)).map_values(|c: CombatienteModelo| c.id)
}

/// One turn: the arena and state after it, and who died in it.
///
/// A dead fighter is knocked out. A living one asks its strategy for a target
/// among its living enemies: with none it is knocked out; with one that is
/// indeed its enemy, every fighter with that identifier takes a hit of the
/// attacker's power. The turn then passes to the next fighter, cyclically.
pub open spec fn paso(a: ArenaModelo, e: EstadoModelo) -> (ArenaModelo, EstadoModelo, Seq<IdCombatiente>) {
    let n = a.combatientes.len();
    let i = e.indice as int;
    let c = a.combatientes[i];
    let siguiente = ((i + 1) % (n as int)) as nat;
    let fuera = EstadoModelo {
        indice: siguiente,
        fuera_de_combate: e.fuera_de_combate.update(i, true),
    };
    let sigue = EstadoModelo { indice: siguiente, fuera_de_combate: e.fuera_de_combate };
    if !c.vivo() {
        (a, fuera, Seq::empty())
    } else {
        let (estrategia, objetivo) = eleccion(c.estrategia, candidatos(a, c.id));
        let cs = a.combatientes.update(i, CombatienteModelo { estrategia, ..c });
        match objetivo {
            None => (ArenaModelo { combatientes: cs, ..a }, fuera, Seq::empty()),
            Some(t) => if enemigos_de(a.enemistades, c.id).contains(t) {
                (
                    ArenaModelo { combatientes: tras_ataque(cs, t, c.ataque), ..a },
                    sigue,
                    muertes(cs, t, c.ataque),
                )
            } else {
                (ArenaModelo { combatientes: cs, ..a }, sigue, Seq::empty())
            },
        }
    }
}

/// `k` turns from `(a, e)`: the arena and state then, and who died, in order.
pub open spec fn ejecutar(a: ArenaModelo, e: EstadoModelo, k: nat) -> (ArenaModelo, EstadoModelo, Seq<IdCombatiente>)
    decreases k,
{
    if k == 0 {
        (a, e, Seq::empty())
    } else {
        let (a1, e1, m1) = ejecutar(a, e, (k - 1) as nat);
        let (a2, e2, m2) = paso(a1, e1);
        (a2, e2, m1 + m2)
    }
}

/// Every attack between enemies gets through the armor: an attacker's power
/// exceeds the protection of each of its enemies. Then each turn of a fighter
/// still standing either wounds someone or knocks that fighter out, so the
/// battle ends.
pub open spec fn todo_ataque_hiere(a: ArenaModelo) -> bool {
    forall|i: int, j: int|
        0 <= i < a.combatientes.len() && 0 <= j < a.combatientes.len()
            && #[trigger] enemigos_de(a.enemistades, a.combatientes[i].id).contains(#[trigger] a.combatientes[j].id)
            ==> a.combatientes[i].ataque > a.combatientes[j].proteccion
}

/// The battle from `a` is over after `k` turns, and not before.
pub open spec fn termina_en(a: ArenaModelo, k: nat) -> bool {
    let e = estado_inicial(a.combatientes.len());
    &&& terminada(ejecutar(a, e, k).1)
    &&& forall|j: nat| j < k ==> !terminada(#[trigger] ejecutar(a, e, j).1)
}

spec fn vida_positiva(c: CombatienteModelo) -> nat {
    if c.vida > 0 {
        c.vida as nat
    } else {
        0
    }
}

/// The health left to the living fighters.
spec fn vida_restante(cs: Seq<CombatienteModelo>) -> nat
    decreases cs.len(),
{
    if cs.len() == 0 {
        0
    } else {
        vida_restante(cs.drop_last()) + vida_positiva(cs.last())
    }
}

/// How many fighters are not knocked out.
spec fn en_pie(f: Seq<bool>) -> nat
    decreases f.len(),
{
    if f.len() == 0 {
        0
    } else {
        en_pie(f.drop_last()) + if f.last() {
            0nat
        } else {
            1nat
        }
    }
}

/// What every turn of a battle whose attacks all wound can only lower.
spec fn potencial(a: ArenaModelo, e: EstadoModelo) -> nat {
    vida_restante(a.combatientes) + en_pie(e.fuera_de_combate)
}

proof fn lema_vida_restante_update(cs: Seq<CombatienteModelo>, i: int, c: CombatienteModelo)
    requires
        0 <= i < cs.len(),
    ensures
        vida_restante(cs.update(i, c)) + vida_positiva(cs[i]) == vida_restante(cs) + vida_positiva(c),
    decreases cs.len(),
{
    if i == cs.len() - 1 {
        assert(cs.update(i, c).drop_last() =~= cs.drop_last());
    } else {
        lema_vida_restante_update(cs.drop_last(), i, c);
        assert(cs.update(i, c).drop_last() =~= cs.drop_last().update(i, c));
    }
}

proof fn lema_vida_tras_ataque(cs: Seq<CombatienteModelo>, t: IdCombatiente, p: u32, q: int)
    ensures
        vida_restante(tras_ataque(cs, t, p)) <= vida_restante(cs),
        0 <= q < cs.len() && cs[q].id == t && cs[q].vivo() && p > cs[q].proteccion
            ==> vida_restante(tras_ataque(cs, t, p)) < vida_restante(cs),
    decreases cs.len(),
{
    if cs.len() > 0 {
        let r = cs.drop_last();
        lema_vida_tras_ataque(r, t, p, q);
        assert(tras_ataque(cs, t, p).drop_last() =~= tras_ataque(r, t, p));
        let u = cs.last();
        assert(tras_ataque(cs, t, p).last() == golpeado(u, t, p));
        assert(vida_positiva(golpeado(u, t, p)) <= vida_positiva(u));
        if 0 <= q < r.len() {
            assert(r[q] == cs[q]);
        }
    }
}

proof fn lema_en_pie_update(f: Seq<bool>, i: int)
    requires
        0 <= i < f.len(),
    ensures
        en_pie(f.update(i, true)) + (if f[i] { 0int } else { 1int }) == en_pie(f),
    decreases f.len(),
{
    if i == f.len() - 1 {
        assert(f.update(i, true).drop_last() =~= f.drop_last());
    } else {
        lema_en_pie_update(f.drop_last(), i);
        assert(f.update(i, true).drop_last() =~= f.drop_last().update(i, true));
    }
}

/// A turn keeps the arena well formed, keeps every attack wounding, moves the
/// turn on, knocks out no one but the fighter whose turn it was, and never
/// raises the potential; for a fighter still standing, it lowers it.
proof fn lema_paso(a: ArenaModelo, e: EstadoModelo)
    requires
        bien_formada(a),
        todo_ataque_hiere(a),
        estado_valido(a.combatientes.len(), e),
    ensures
        ({
            let (a2, e2, m) = paso(a, e);
            &&& bien_formada(a2)
            &&& todo_ataque_hiere(a2)
            &&& a2.combatientes.len() == a.combatientes.len()
            &&& estado_valido(a.combatientes.len(), e2)
            &&& e2.indice == (e.indice + 1) as int % (a.combatientes.len() as int)
            &&& forall|q: int| 0 <= q < e.fuera_de_combate.len() && q != e.indice
                ==> e2.fuera_de_combate[q] == e.fuera_de_combate[q]
            &&& potencial(a2, e2) <= potencial(a, e)
            &&& !e.fuera_de_combate[e.indice as int] ==> potencial(a2, e2) < potencial(a, e)
        }),
{
    let n = a.combatientes.len();
    let i = e.indice as int;
    let c = a.combatientes[i];
    let (a2, e2, m) = paso(a, e);
    vstd::arithmetic::div_mod::lemma_mod_bound(i + 1, n as int);
    if !c.vivo() {
        lema_en_pie_update(e.fuera_de_combate, i);
    } else {
        let cands = candidatos(a, c.id);
        let (estrategia, objetivo) = eleccion(c.estrategia, cands);
        let c1 = CombatienteModelo { estrategia, ..c };
        let cs = a.combatientes.update(i, c1);
        lema_vida_restante_update(a.combatientes, i, c1);
        assert(!enemigos_de(a.enemistades, c.id).contains(c.id));
        match objetivo {
            None => {
                lema_en_pie_update(e.fuera_de_combate, i);
            },
            Some(t) => {
                lema_eleccion_entre_candidatos(c.estrategia, cands);
                let k = choose|k: int| 0 <= k < cands.len() && cands[k].id == t;
                assert(cands.contains(cands[k]));
                a.combatientes.lemma_filter_pred(es_candidato(a, c.id), k);
                a.combatientes.lemma_filter_contains_rev(es_candidato(a, c.id), cands[k]);
                let q = choose|q: int| 0 <= q < n && a.combatientes[q] == cands[k];
                assert(enemigos_de(a.enemistades, c.id).contains(t));
                assert(q != i);
                assert(cs[q] == a.combatientes[q]);
                assert(enemigos_de(a.enemistades, a.combatientes[i].id).contains(a.combatientes[q].id));
                lema_vida_tras_ataque(cs, t, c.ataque, q);
                let cs2 = tras_ataque(cs, t, c.ataque);
                assert forall|x: int, y: int|
                    0 <= x < n && 0 <= y < n
                        && #[trigger] enemigos_de(a2.enemistades, a2.combatientes[x].id).contains(#[trigger] a2.combatientes[y].id)
                        implies a2.combatientes[x].ataque > a2.combatientes[y].proteccion by {
                    assert(cs2[x].id == a.combatientes[x].id && cs2[x].ataque == a.combatientes[x].ataque);
                    assert(cs2[y].id == a.combatientes[y].id && cs2[y].proteccion == a.combatientes[y].proteccion);
                    assert(enemigos_de(a.enemistades, a.combatientes[x].id).contains(a.combatientes[y].id));
                }
                return;
            },
        }
    }
    assert forall|x: int, y: int|
        0 <= x < n && 0 <= y < n
            && #[trigger] enemigos_de(a2.enemistades, a2.combatientes[x].id).contains(#[trigger] a2.combatientes[y].id)
            implies a2.combatientes[x].ataque > a2.combatientes[y].proteccion by {
        assert(a2.combatientes[x].id == a.combatientes[x].id && a2.combatientes[x].ataque == a.combatientes[x].ataque);
        assert(a2.combatientes[y].id == a.combatientes[y].id && a2.combatientes[y].proteccion == a.combatientes[y].proteccion);
        assert(enemigos_de(a.enemistades, a.combatientes[x].id).contains(a.combatientes[y].id));
    }
}

/// No fighter of the arena has a registered enemy.
pub open spec fn sin_enemistades(a: ArenaModelo) -> bool {
    forall|q: int| 0 <= q < a.combatientes.len() ==> #[trigger] enemigos_de(a.enemistades, a.combatientes[q].id).len() == 0
}

/// A fighter with no registered enemies is knocked out on its turn, and
/// nothing else changes but its strategy's memory.
pub proof fn sin_enemigos_queda_fuera(a: ArenaModelo, e: EstadoModelo)
    requires
        estado_valido(a.combatientes.len(), e),
        enemigos_de(a.enemistades, a.combatientes[e.indice as int].id).len() == 0,
    ensures
        paso(a, e).1.fuera_de_combate == e.fuera_de_combate.update(e.indice as int, true),
        paso(a, e).2.len() == 0,
        paso(a, e).0.enemistades == a.enemistades,
        paso(a, e).0.combatientes.len() == a.combatientes.len(),
        forall|q: int| 0 <= q < a.combatientes.len() ==> (#[trigger] paso(a, e).0.combatientes[q]).id == a.combatientes[q].id,
{
    let i = e.indice as int;
    let c = a.combatientes[i];
    if c.vivo() {
        let cands = candidatos(a, c.id);
        lema_eleccion_entre_candidatos(c.estrategia, cands);
        if eleccion(c.estrategia, cands).1 is Some {
            let t = eleccion(c.estrategia, cands).1->0;
            let k = choose|k: int| 0 <= k < cands.len() && cands[k].id == t;
            a.combatientes.lemma_filter_pred(es_candidato(a, c.id), k);
            assert(enemigos_de(a.enemistades, c.id).contains(t));
        }
    }
}

proof fn lema_ronda_sin_enemigos(a: ArenaModelo, m: nat)
    requires
        a.combatientes.len() > 0,
        sin_enemistades(a),
        m <= a.combatientes.len(),
    ensures
        ({
            let n = a.combatientes.len();
            let (am, em, _) = ejecutar(a, estado_inicial(n), m);
            &&& am.enemistades == a.enemistades
            &&& am.combatientes.len() == n
            &&& forall|q: int| 0 <= q < n ==> (#[trigger] am.combatientes[q]).id == a.combatientes[q].id
            &&& em.indice == m as int % (n as int)
            &&& em.fuera_de_combate.len() == n
            &&& forall|p: int| 0 <= p < n ==> (#[trigger] em.fuera_de_combate[p] <==> p < m)
        }),
    decreases m,
{
    let n = a.combatientes.len();
    if m == 0 {
        vstd::arithmetic::div_mod::lemma_small_mod(0, n);
    } else {
        lema_ronda_sin_enemigos(a, (m - 1) as nat);
        let (am, em, _) = ejecutar(a, estado_inicial(n), (m - 1) as nat);
        vstd::arithmetic::div_mod::lemma_small_mod((m - 1) as nat, n);
        assert(em.indice == m - 1);
        assert(enemigos_de(am.enemistades, am.combatientes[m - 1].id).len() == 0) by {
            assert(am.combatientes[m - 1].id == a.combatientes[m - 1].id);
        }
        sin_enemigos_queda_fuera(am, em);
        if m < n {
            vstd::arithmetic::div_mod::lemma_small_mod(m, n);
        } else {
            vstd::arithmetic::div_mod::lemma_mod_self_0(n as int);
        }
        vstd::arithmetic::div_mod::lemma_small_mod((m - 1) as nat, n);
        assert((em.indice + 1) as int % (n as int) == m as int % (n as int));
    }
}

/// When no fighter has a registered enemy, each is knocked out on its first
/// turn and the battle ends right after the last of them: after exactly one
/// turn per fighter.
pub proof fn sin_enemigos_termina_en_una_ronda(a: ArenaModelo)
    requires
        a.combatientes.len() > 0,
        sin_enemistades(a),
    ensures
        termina_en(a, a.combatientes.len()),
{
    let n = a.combatientes.len();
    lema_ronda_sin_enemigos(a, n);
    assert forall|j: nat| j < n implies !terminada(#[trigger] ejecutar(a, estado_inicial(n), j).1) by {
        lema_ronda_sin_enemigos(a, j);
        assert(!ejecutar(a, estado_inicial(n), j).1.fuera_de_combate[j as int]);
    }
}

/// The state of a battle: whose turn it is and who is knocked out.
pub struct EstadoBatalla {
    indice: usize,
    fuera_de_combate: Vec<bool>,
}

impl View for EstadoBatalla {
    type V = EstadoModelo;

    closed spec fn view(&self) -> EstadoModelo {
        EstadoModelo { indice: self.indice as nat, fuera_de_combate: self.fuera_de_combate@ }
    }
}

impl EstadoBatalla {
    /// Whether every fighter is knocked out.
    pub fn terminada(&self) -> (r: bool)
        ensures
            r == terminada(self@),
    {
        let mut p: usize = 0;
        while p < self.fuera_de_combate.len()
            invariant
                p <= self.fuera_de_combate@.len(),
                forall|q: int| 0 <= q < p ==> self.fuera_de_combate@[q],
            decreases self.fuera_de_combate@.len() - p,
        {
            if !self.fuera_de_combate[p] {
                assert(!self@.fuera_de_combate[p as int]);
                return false;
            }
            p += 1;
        }
        true
    }
}

/// Adding a fighter as its own enemy changes nothing.
pub proof fn enemigo_de_si_mismo_no_cambia_nada(a: ArenaModelo, id: IdCombatiente)
    ensures
        con_enemigo(a, id, id) == a,
        enemigos_de(con_enemigo(a, id, id).enemistades, id) == enemigos_de(a.enemistades, id),
{
}

/// Adding the same enmity twice is the same as adding it once.
pub proof fn agregar_enemigo_es_idempotente(a: ArenaModelo, id: IdCombatiente, enemigo: IdCombatiente)
    ensures
        con_enemigo(con_enemigo(a, id, enemigo), id, enemigo) == con_enemigo(a, id, enemigo),
{
    let b = con_enemigo(a, id, enemigo);
    if b != a {
        assert(enemigos_de(b.enemistades, id) == enemigos_de(a.enemistades, id).push(enemigo));
        assert(enemigos_de(b.enemistades, id).last() == enemigo);
        assert(enemigos_de(b.enemistades, id).contains(enemigo));
    }
}

} // verus!
