use combatientes_fantasticos::arena::Arena;
use combatientes_fantasticos::combatiente::{Arma, Combatiente};
use combatientes_fantasticos::estrategia::{AtacarAlPrimero, Estrategia};

fn atacar_al_primero() -> Estrategia {
    Estrategia::AtacarAlPrimero(AtacarAlPrimero)
}

#[test]
fn agregar_enemigos_los_agrega_efectivamente() {
    let mut arena = Arena::nueva();
    let id_combatiente_1 = arena.nuevo_combatiente_con_estrategia(atacar_al_primero());
    let id_combatiente_2 = arena.nuevo_combatiente_con_estrategia(atacar_al_primero());
    assert_eq!(arena.enemigos_de(id_combatiente_1), Vec::new());

    arena.agregar_enemigo_de_combatiente(id_combatiente_1, id_combatiente_2);

    assert_eq!(arena.enemigos_de(id_combatiente_1), vec![id_combatiente_2]);
}

#[test]
fn no_agrega_combatiente_como_propio_enemigo() {
    let mut arena = Arena::nueva();
    let id_combatiente_1 = arena.nuevo_combatiente_con_estrategia(atacar_al_primero());
    arena.agregar_enemigo_de_combatiente(id_combatiente_1, id_combatiente_1);
    assert!(arena.enemigos_de(id_combatiente_1).is_empty());
}

#[test]
fn agregar_enemigo_es_idempotente() {
    let mut arena = Arena::nueva();
    let id_combatiente_1 = arena.nuevo_combatiente_con_estrategia(atacar_al_primero());
    let id_combatiente_2 = arena.nuevo_combatiente_con_estrategia(atacar_al_primero());
    arena.agregar_enemigo_de_combatiente(id_combatiente_1, id_combatiente_2);
    arena.agregar_enemigo_de_combatiente(id_combatiente_1, id_combatiente_2);

    assert_eq!(arena.enemigos_de(id_combatiente_1), vec![id_combatiente_2]);
}

#[test]
fn agregar_enemigo_desconocido_no_hace_nada() {
    let mut arena = Arena::nueva();
    let id_1 = arena.nuevo_combatiente_con_estrategia(atacar_al_primero());
    let ajeno = Combatiente::default();
    arena.agregar_enemigo_de_combatiente(id_1, ajeno.id());
    arena.agregar_enemigo_de_combatiente(ajeno.id(), id_1);
    assert!(arena.enemigos_de(id_1).is_empty());
    assert!(arena.enemigos_de(ajeno.id()).is_empty());
}

#[test]
fn la_enemistad_es_dirigida_y_guarda_el_orden() {
    let mut arena = Arena::nueva();
    let id_1 = arena.nuevo_combatiente_con_estrategia(atacar_al_primero());
    let id_2 = arena.nuevo_combatiente_con_estrategia(atacar_al_primero());
    let id_3 = arena.nuevo_combatiente_con_estrategia(atacar_al_primero());
    arena.agregar_enemigo_de_combatiente(id_1, id_3);
    arena.agregar_enemigo_de_combatiente(id_1, id_2);
    assert_eq!(arena.enemigos_de(id_1), vec![id_3, id_2]);
    assert!(arena.enemigos_de(id_2).is_empty());
    assert!(arena.enemigos_de(id_3).is_empty());
}

#[test]
fn combatiente_con_id_encuentra_al_registrado() {
    let mut arena = Arena::nueva();
    let con_daga = Combatiente::nuevo(Arma::daga(), atacar_al_primero());
    let id_daga = arena.agregar_combatiente(con_daga);
    let id_punos = arena.nuevo_combatiente_con_estrategia(atacar_al_primero());
    assert_eq!(arena.combatiente_con_id(id_daga).unwrap().ataque(), 4);
    assert_eq!(arena.combatiente_con_id(id_punos).unwrap().ataque(), 2);
    assert!(arena.combatiente_con_id(Combatiente::default().id()).is_none());
}

#[test]
fn dos_combatientes_sin_armadura_pelean_hasta_que_uno_muere() {
    let mut arena = Arena::nueva();
    let id_1 = arena.agregar_combatiente(Combatiente::nuevo_con_armadura(Arma::punos(), None, atacar_al_primero()));
    let id_2 = arena.agregar_combatiente(Combatiente::nuevo_con_armadura(Arma::punos(), None, atacar_al_primero()));
    arena.agregar_enemigo_de_combatiente(id_1, id_2);
    arena.agregar_enemigo_de_combatiente(id_2, id_1);
    assert!(arena.todo_ataque_hiere());

    let muertos = arena.comenzar_batalla();

    assert_eq!(muertos, vec![id_2]);
    let combatiente_1 = arena.combatiente_con_id(id_1).unwrap();
    let combatiente_2 = arena.combatiente_con_id(id_2).unwrap();
    assert_eq!(combatiente_1.vida(), 2);
    assert_eq!(combatiente_2.vida(), 0);
    assert!(combatiente_1.esta_vivo());
    assert!(!combatiente_2.esta_vivo());
}

#[test]
fn sin_enemigos_quedan_fuera_en_su_primer_turno() {
    let mut arena = Arena::nueva();
    let id_1 = arena.nuevo_combatiente_con_estrategia(atacar_al_primero());
    let id_2 = arena.nuevo_combatiente_con_estrategia(atacar_al_primero());
    let mut estado = arena.estado_inicial();
    assert!(!estado.terminada());
    assert!(arena.jugar_turno(&mut estado).is_empty());
    assert!(!estado.terminada());
    assert!(arena.jugar_turno(&mut estado).is_empty());
    assert!(estado.terminada());
    assert_eq!(arena.combatiente_con_id(id_1).unwrap().vida(), 20);
    assert_eq!(arena.combatiente_con_id(id_2).unwrap().vida(), 20);
}

#[test]
fn batalla_sin_enemigos_termina_sin_muertos() {
    let mut arena = Arena::nueva();
    let id_1 = arena.nuevo_combatiente_con_estrategia(atacar_al_primero());
    let id_2 = arena.nuevo_combatiente_con_estrategia(atacar_al_primero());
    assert!(arena.todo_ataque_hiere());
    assert!(arena.comenzar_batalla().is_empty());
    assert!(arena.combatiente_con_id(id_1).unwrap().esta_vivo());
    assert!(arena.combatiente_con_id(id_2).unwrap().esta_vivo());
}

#[test]
fn punos_contra_cuero_no_hieren() {
    let mut arena = Arena::nueva();
    let id_1 = arena.nuevo_combatiente_con_estrategia(atacar_al_primero());
    let id_2 = arena.nuevo_combatiente_con_estrategia(atacar_al_primero());
    arena.agregar_enemigo_de_combatiente(id_1, id_2);
    assert!(!arena.todo_ataque_hiere());
    let mut estado = arena.estado_inicial();
    arena.jugar_turno(&mut estado);
    assert_eq!(arena.combatiente_con_id(id_2).unwrap().vida(), 20);
    assert!(!estado.terminada());
}

#[test]
fn la_daga_atraviesa_el_cuero_hasta_matar() {
    let mut arena = Arena::nueva();
    let id_daga = arena.agregar_combatiente(Combatiente::nuevo(Arma::daga(), atacar_al_primero()));
    let id_victima = arena.nuevo_combatiente_con_estrategia(atacar_al_primero());
    arena.agregar_enemigo_de_combatiente(id_daga, id_victima);
    assert!(arena.todo_ataque_hiere());
    let muertos = arena.comenzar_batalla();
    assert_eq!(muertos, vec![id_victima]);
    assert_eq!(arena.combatiente_con_id(id_victima).unwrap().vida(), 0);
    assert_eq!(arena.combatiente_con_id(id_daga).unwrap().vida(), 20);
}
