use combatientes_fantasticos::combatiente::{Arma, Armadura, Combatiente};
use combatientes_fantasticos::estrategia::{AtacarAlPrimero, Estrategia};

#[test]
fn combatientes_diferentes_son_distintos() {
    let combatiente_1 = Combatiente::default();
    let combatiente_2 = Combatiente::default();
    assert_ne!(combatiente_1, combatiente_2);
}

#[test]
fn combatiente_nuevo_tiene_20_puntos_de_vida() {
    let combatiente_1 = Combatiente::default();
    assert_eq!(combatiente_1.vida(), 20)
}

#[test]
fn combatiente_nuevo_esta_armado_con_punos() {
    let combatiente_1 = Combatiente::default();
    assert_eq!(combatiente_1.ataque(), 2)
}

#[test]
fn combatiente_nuevo_tiene_armadura_de_cuero() {
    let combatiente_1 = Combatiente::default();
    assert_eq!(combatiente_1.proteccion(), 3)
}

#[test]
fn recibir_dano_baja_la_vida() {
    let mut combatiente_1 = Combatiente::default();
    combatiente_1.recibir_dano(10);
    assert_eq!(combatiente_1.vida(), 20 - 10 + 3)
}

#[test]
fn recibir_curacion_sube_la_vida() {
    let mut combatiente_1 = Combatiente::default();
    combatiente_1.recibir_dano(10);
    combatiente_1.recibir_curacion(5);
    assert_eq!(combatiente_1.vida(), 20 - 10 + 3 + 5)
}

#[test]
fn recibir_curacion_sube_la_vida_con_maximo_de_20() {
    let mut combatiente_1 = Combatiente::default();
    combatiente_1.recibir_dano(10);
    combatiente_1.recibir_curacion(11);
    assert_eq!(combatiente_1.vida(), 20)
}

#[test]
fn armas_y_armadura_tienen_sus_valores() {
    assert_eq!(Arma::punos().ataque(), 2);
    assert_eq!(Arma::daga().ataque(), 4);
    assert_eq!(Armadura::de_cuero().proteccion(), 3);
}

#[test]
fn golpe_que_no_supera_la_armadura_no_hace_nada() {
    let mut combatiente = Combatiente::default();
    assert!(!combatiente.recibir_dano(3));
    assert!(!combatiente.recibir_dano(0));
    assert_eq!(combatiente.vida(), 20);
}

#[test]
fn sin_armadura_el_golpe_entra_entero() {
    let mut combatiente =
        Combatiente::nuevo_con_armadura(Arma::daga(), None, Estrategia::AtacarAlPrimero(AtacarAlPrimero));
    assert_eq!(combatiente.proteccion(), 0);
    assert_eq!(combatiente.ataque(), 4);
    combatiente.recibir_dano(2);
    assert_eq!(combatiente.vida(), 18);
}

#[test]
fn recibir_dano_avisa_solo_del_golpe_que_mata() {
    let mut combatiente = Combatiente::default();
    assert!(!combatiente.recibir_dano(20));
    assert_eq!(combatiente.vida(), 3);
    assert!(combatiente.esta_vivo());
    assert!(combatiente.recibir_dano(6));
    assert_eq!(combatiente.vida(), 0);
    assert!(!combatiente.esta_vivo());
    assert!(!combatiente.recibir_dano(10));
    assert_eq!(combatiente.vida(), -7);
}

#[test]
fn dano_enorme_no_desborda_la_vida() {
    let mut combatiente = Combatiente::default();
    assert!(combatiente.recibir_dano(u32::MAX));
    assert_eq!(combatiente.vida(), i32::MIN);
}

#[test]
fn la_vida_nunca_supera_20() {
    let mut combatiente = Combatiente::default();
    combatiente.recibir_curacion(u32::MAX);
    assert_eq!(combatiente.vida(), 20);
    combatiente.recibir_dano(7);
    combatiente.recibir_curacion(1);
    assert_eq!(combatiente.vida(), 17);
    combatiente.recibir_curacion(100);
    assert_eq!(combatiente.vida(), 20);
}

#[test]
fn curar_a_un_muerto_sube_su_vida() {
    let mut combatiente = Combatiente::default();
    combatiente.recibir_dano(30);
    assert_eq!(combatiente.vida(), -7);
    combatiente.recibir_curacion(10);
    assert_eq!(combatiente.vida(), 3);
    assert!(combatiente.esta_vivo());
}
