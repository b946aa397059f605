use combatientes_fantasticos::combatiente::{Arma, Combatiente};
use combatientes_fantasticos::estrategia::{
    AtacarAlPrimero, Estrategia, EstasEnMiLista, HayParaTodos, LenaDeArbolCaido, VosNoTeLaVasALlevarDeArriba,
};

#[test]
fn atacar_al_primero() {
    let mut combatiente_1 = Combatiente::default();
    combatiente_1.recibir_dano(13);
    let mut combatiente_2 = Combatiente::default();
    combatiente_2.recibir_dano(5);
    let mut combatiente_3 = Combatiente::default();
    combatiente_3.recibir_dano(4);

    let oponentes = vec![&combatiente_2, &combatiente_1, &combatiente_3];

    let id_oponente_elegido = AtacarAlPrimero.elegir_enemigo(&oponentes);

    assert_eq!(id_oponente_elegido.unwrap(), combatiente_2.id());
}

#[test]
fn atacar_al_mas_debil() {
    let mut combatiente_1 = Combatiente::default();
    combatiente_1.recibir_dano(13);
    let mut combatiente_2 = Combatiente::default();
    combatiente_2.recibir_dano(5);
    let mut combatiente_3 = Combatiente::default();
    combatiente_3.recibir_dano(8);

    let oponentes = vec![&combatiente_2, &combatiente_1, &combatiente_3];

    let id_oponente_elegido = LenaDeArbolCaido.elegir_enemigo(&oponentes);

    assert_eq!(id_oponente_elegido.unwrap(), combatiente_1.id());
}

#[test]
fn atacar_al_mas_fuerte() {
    let mut combatiente_1 = Combatiente::default();
    combatiente_1.recibir_dano(13);
    let mut combatiente_2 = Combatiente::default();
    combatiente_2.recibir_dano(5);
    let mut combatiente_3 = Combatiente::default();
    combatiente_3.recibir_dano(4);

    let oponentes = vec![&combatiente_2, &combatiente_1, &combatiente_3];

    let id_oponente_elegido = VosNoTeLaVasALlevarDeArriba.elegir_enemigo(&oponentes);

    assert_eq!(id_oponente_elegido.unwrap(), combatiente_3.id());
}

#[test]
fn hay_para_todos() {
    let mut combatiente_1 = Combatiente::default();
    combatiente_1.recibir_dano(5);
    let mut combatiente_2 = Combatiente::default();
    combatiente_2.recibir_dano(13);
    let mut combatiente_3 = Combatiente::default();
    combatiente_3.recibir_dano(4);
    let mut combatiente_4 = Combatiente::default();
    combatiente_4.recibir_dano(13);

    let oponentes = vec![&combatiente_1, &combatiente_2, &combatiente_3, &combatiente_4];

    let mut estrategia = HayParaTodos::nuevo();

    let id_oponente_elegido_1 = estrategia.elegir_enemigo(&oponentes);
    let id_oponente_elegido_2 = estrategia.elegir_enemigo(&oponentes);
    let id_oponente_elegido_3 = estrategia.elegir_enemigo(&oponentes);
    let id_oponente_elegido_4 = estrategia.elegir_enemigo(&oponentes);
    let id_oponente_elegido_5 = estrategia.elegir_enemigo(&oponentes);
    let id_oponente_elegido_6 = estrategia.elegir_enemigo(&oponentes);
    let id_oponente_elegido_7 = estrategia.elegir_enemigo(&oponentes);
    let id_oponente_elegido_8 = estrategia.elegir_enemigo(&oponentes);

    assert_eq!(id_oponente_elegido_1.unwrap(), combatiente_2.id());
    assert_eq!(id_oponente_elegido_2.unwrap(), combatiente_4.id());
    assert_eq!(id_oponente_elegido_3.unwrap(), combatiente_1.id());
    assert_eq!(id_oponente_elegido_4.unwrap(), combatiente_3.id());
    assert_eq!(id_oponente_elegido_5.unwrap(), combatiente_2.id());
    assert_eq!(id_oponente_elegido_6.unwrap(), combatiente_4.id());
    assert_eq!(id_oponente_elegido_7.unwrap(), combatiente_1.id());
    assert_eq!(id_oponente_elegido_8.unwrap(), combatiente_3.id());
}

#[test]
fn estas_en_mi_lista() {
    let mut combatiente_1 = Combatiente::default();
    combatiente_1.recibir_dano(5);
    let mut combatiente_2 = Combatiente::default();
    combatiente_2.recibir_dano(13);
    let mut combatiente_3 = Combatiente::default();
    combatiente_3.recibir_dano(4);
    let mut combatiente_4 = Combatiente::default();
    combatiente_4.recibir_dano(13);

    let oponentes = vec![&combatiente_1, &combatiente_3, &combatiente_4];

    let mut estrategia =
        EstasEnMiLista::nuevo(&[combatiente_1.id(), combatiente_2.id(), combatiente_4.id()]);

    let id_oponente_elegido_1 = estrategia.elegir_enemigo(&oponentes);
    let id_oponente_elegido_2 = estrategia.elegir_enemigo(&oponentes);
    let id_oponente_elegido_3 = estrategia.elegir_enemigo(&oponentes);
    let id_oponente_elegido_4 = estrategia.elegir_enemigo(&oponentes);
    let id_oponente_elegido_5 = estrategia.elegir_enemigo(&oponentes);

    assert_eq!(id_oponente_elegido_1.unwrap(), combatiente_1.id());
    assert_eq!(id_oponente_elegido_2.unwrap(), combatiente_4.id());
    assert_eq!(id_oponente_elegido_3.unwrap(), combatiente_1.id());
    assert_eq!(id_oponente_elegido_4.unwrap(), combatiente_4.id());
    assert_eq!(id_oponente_elegido_5.unwrap(), combatiente_1.id());
}

fn con_vida(vida: i32) -> Combatiente {
    let mut c = Combatiente::nuevo_con_armadura(Arma::punos(), None, Estrategia::AtacarAlPrimero(AtacarAlPrimero));
    c.recibir_dano((20 - vida) as u32);
    assert_eq!(c.vida(), vida);
    c
}

#[test]
fn sin_candidatos_nadie_elige() {
    let vacio: Vec<&Combatiente> = Vec::new();
    assert!(AtacarAlPrimero.elegir_enemigo(&vacio).is_none());
    assert!(LenaDeArbolCaido.elegir_enemigo(&vacio).is_none());
    assert!(VosNoTeLaVasALlevarDeArriba.elegir_enemigo(&vacio).is_none());
    assert!(HayParaTodos::nuevo().elegir_enemigo(&vacio).is_none());
    let otro = Combatiente::default();
    assert!(EstasEnMiLista::nuevo(&[otro.id()]).elegir_enemigo(&vacio).is_none());
}

#[test]
fn el_mas_debil_y_el_mas_fuerte_de_diez_dos_cinco() {
    let c1 = con_vida(10);
    let c2 = con_vida(2);
    let c3 = con_vida(5);
    let oponentes = vec![&c1, &c2, &c3];
    assert_eq!(LenaDeArbolCaido.elegir_enemigo(&oponentes), Some(c2.id()));
    assert_eq!(VosNoTeLaVasALlevarDeArriba.elegir_enemigo(&oponentes), Some(c1.id()));
}

#[test]
fn en_un_empate_gana_el_primero() {
    let c1 = con_vida(7);
    let c2 = con_vida(3);
    let c3 = con_vida(7);
    let c4 = con_vida(3);
    let oponentes = vec![&c1, &c2, &c3, &c4];
    assert_eq!(LenaDeArbolCaido.elegir_enemigo(&oponentes), Some(c2.id()));
    assert_eq!(VosNoTeLaVasALlevarDeArriba.elegir_enemigo(&oponentes), Some(c1.id()));
}

#[test]
fn hay_para_todos_con_salud_pareja_visita_a_cada_uno_dos_veces() {
    let c1 = con_vida(12);
    let c2 = con_vida(12);
    let c3 = con_vida(12);
    let c4 = con_vida(12);
    let oponentes = vec![&c1, &c2, &c3, &c4];
    let mut estrategia = HayParaTodos::nuevo();
    let elegidos: Vec<u128> = (0..8).map(|_| estrategia.elegir_enemigo(&oponentes).unwrap()).collect();
    let orden = vec![c1.id(), c2.id(), c3.id(), c4.id()];
    assert_eq!(elegidos[..4], orden[..]);
    assert_eq!(elegidos[4..], orden[..]);
}

#[test]
fn mi_lista_de_dos_alterna() {
    let a = con_vida(20);
    let b = con_vida(1);
    let c = con_vida(9);
    let oponentes = vec![&b, &c, &a];
    let mut estrategia = EstasEnMiLista::nuevo(&[a.id(), c.id()]);
    for _ in 0..3 {
        assert_eq!(estrategia.elegir_enemigo(&oponentes), Some(a.id()));
        assert_eq!(estrategia.elegir_enemigo(&oponentes), Some(c.id()));
    }
}

#[test]
fn mi_lista_sin_nadie_presente_no_elige_ni_avanza() {
    let a = con_vida(20);
    let b = con_vida(1);
    let c = con_vida(9);
    let mut estrategia = EstasEnMiLista::nuevo(&[a.id(), c.id()]);
    assert_eq!(estrategia.elegir_enemigo(&vec![&b]), None);
    assert_eq!(estrategia.elegir_enemigo(&vec![&c, &a]), Some(a.id()));
}

#[test]
fn estrategia_delega_en_la_que_contiene() {
    let c1 = con_vida(10);
    let c2 = con_vida(2);
    let oponentes = vec![&c1, &c2];
    let mut primero = Estrategia::AtacarAlPrimero(AtacarAlPrimero);
    let mut debil = Estrategia::LenaDeArbolCaido(LenaDeArbolCaido);
    let mut fuerte = Estrategia::VosNoTeLaVasALlevarDeArriba(VosNoTeLaVasALlevarDeArriba);
    assert_eq!(primero.elegir_enemigo(&oponentes), Some(c1.id()));
    assert_eq!(debil.elegir_enemigo(&oponentes), Some(c2.id()));
    assert_eq!(fuerte.elegir_enemigo(&oponentes), Some(c1.id()));
    let mut atacante = Combatiente::nuevo(Arma::punos(), Estrategia::HayParaTodos(HayParaTodos::nuevo()));
    assert_eq!(atacante.elegir_enemigo(&oponentes), Some(c2.id()));
    assert_eq!(atacante.elegir_enemigo(&oponentes), Some(c1.id()));
}
