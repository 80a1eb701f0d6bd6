//! The Model Context Protocol front end: JSON-RPC 2.0 requests, one per line,
//! answered with the tool catalogue, the handshake, or the result of a tool,
//! which runs a command of the API.
use vstd::prelude::*;
use crate::json::{JVal, Json, obj_of, get_view, jstr};
use crate::text::str_eq;

verus! {

/// Protocol version announced in the handshake.
pub const PROTOCOL_VERSION: &'static str = "2024-11-05";

/// Bound on the size of one request line, in bytes.
pub const MAX_LINE_BYTES: usize = 16 * 1024 * 1024;

/// The successful answer to the request with identifier `id`.
pub open spec fn success_view(id: JVal, result: JVal) -> JVal {
    obj_of(seq![("jsonrpc"@, jstr("2.0"@)), ("id"@, id), ("result"@, result)])
}

/// The error answer to the request with identifier `id`.
pub open spec fn error_view(id: JVal, code: int, message: Seq<char>) -> JVal {
    obj_of(
        seq![
            ("jsonrpc"@, jstr("2.0"@)),
            ("id"@, id),
            ("error"@, obj_of(seq![("code"@, JVal::Num(crate::text::signed_decimal(code))), ("message"@, jstr(message))])),
        ],
    )
}

/// Builds the successful answer.
pub fn success_response(id: &Json, result: Json) -> (r: Json)
    ensures
        r@ == success_view(id@, result@),
{
    broadcast use crate::json::lemma_obj_of_push, crate::json::lemma_obj_of_empty;
    let mut out = Json::obj();
    out.set("jsonrpc", Json::Str(String::from_str("2.0")));
    out.set("id", id.copy_value());
    out.set("result", result);
    assert(seq![("jsonrpc"@, jstr("2.0"@)), ("id"@, id@), ("result"@, result@)] =~= Seq::empty().push(
        ("jsonrpc"@, jstr("2.0"@)),
    ).push(("id"@, id@)).push(("result"@, result@)));
    out
}

/// Builds the error answer; the code is written as an integer.
pub fn error_response(id: &Json, code: i64, message: &str) -> (r: Json)
    ensures
        r@ == error_view(id@, code as int, message@),
{
    broadcast use crate::json::lemma_obj_of_push, crate::json::lemma_obj_of_empty;
    let mut err = Json::obj();
    err.set("code", Json::from_i64(code));
    err.set("message", Json::Str(String::from_str(message)));
    let ghost e = err@;
    assert(seq![("code"@, JVal::Num(crate::text::signed_decimal(code as int))), ("message"@, jstr(message@))]
        =~= Seq::empty().push(("code"@, JVal::Num(crate::text::signed_decimal(code as int)))).push(
        ("message"@, jstr(message@)),
    ));
    let mut out = Json::obj();
    out.set("jsonrpc", Json::Str(String::from_str("2.0")));
    out.set("id", id.copy_value());
    out.set("error", err);
    assert(seq![("jsonrpc"@, jstr("2.0"@)), ("id"@, id@), ("error"@, e)] =~= Seq::empty().push(
        ("jsonrpc"@, jstr("2.0"@)),
    ).push(("id"@, id@)).push(("error"@, e)));
    out
}

/// The description of one property of a tool's input.
pub open spec fn prop_view(ty: Seq<char>, desc: Seq<char>) -> JVal {
    obj_of(seq![("type"@, jstr(ty)), ("description"@, jstr(desc))])
}

/// Describes one property of a tool's input: its JSON type and what it is.
pub fn prop(ty: &str, desc: &str) -> (r: Json)
    ensures
        r@ == prop_view(ty@, desc@),
{
    broadcast use crate::json::lemma_obj_of_push, crate::json::lemma_obj_of_empty;
    let mut p = Json::obj();
    p.set("type", Json::Str(String::from_str(ty)));
    p.set("description", Json::Str(String::from_str(desc)));
    assert(seq![("type"@, jstr(ty@)), ("description"@, jstr(desc@))] =~= Seq::empty().push(
        ("type"@, jstr(ty@)),
    ).push(("description"@, jstr(desc@))));
    p
}

/// The models of named values.
pub open spec fn pairs_view(pairs: Seq<(&str, Json)>) -> Seq<(Seq<char>, JVal)> {
    pairs.map_values(|p: (&str, Json)| (p.0@, p.1@))
}

/// An object holding the given properties, set in order.
pub fn props(pairs: &[(&str, Json)]) -> (r: Json)
    ensures
        r@ == obj_of(pairs_view(pairs@)),
{
    broadcast use crate::json::lemma_obj_of_push, crate::json::lemma_obj_of_empty;
    let mut o = Json::obj();
    let mut i: usize = 0;
    while i < pairs.len()
        invariant
            i <= pairs@.len(),
            o@ == obj_of(pairs_view(pairs@.take(i as int))),
        decreases pairs@.len() - i,
    {
        let (k, v) = &pairs[i];
        o.set(k, v.copy_value());
        assert(pairs_view(pairs@.take(i + 1)) =~= pairs_view(pairs@.take(i as int)).push((k@, v@)));
        proof {
            crate::json::lemma_obj_of_push(pairs_view(pairs@.take(i as int)), (k@, v@));
        }
        i = i + 1;
    }
    assert(pairs@.take(pairs@.len() as int) =~= pairs@);
    o
}

/// The input schema of a tool: an object with the given properties, and the
/// list of required ones when there are any.
pub open spec fn schema_view(properties: JVal, required: Seq<Seq<char>>) -> JVal {
    let base = obj_of(seq![("type"@, jstr("object"@)), ("properties"@, properties)]);
    if required.len() == 0 {
        base
    } else {
        crate::json::set_view(base, "required"@, JVal::Arr(required.map_values(|k: Seq<char>| jstr(k))))
    }
}

/// The description of a tool: name, description and input schema.
pub open spec fn tool_view(name: Seq<char>, desc: Seq<char>, properties: JVal, required: Seq<Seq<char>>) -> JVal {
    obj_of(
        seq![("name"@, jstr(name)), ("description"@, jstr(desc)), ("inputSchema"@, schema_view(properties, required))],
    )
}

/// The texts of string slices.
pub open spec fn texts(names: Seq<&str>) -> Seq<Seq<char>> {
    names.map_values(|s: &str| s@)
}

/// Describes a tool.
pub fn tool(name: &str, description: &str, properties: Json, required: &[&str]) -> (r: Json)
    ensures
        r@ == tool_view(name@, description@, properties@, texts(required@)),
{
    broadcast use crate::json::lemma_obj_of_push, crate::json::lemma_obj_of_empty;
    let ghost pv = properties@;
    let mut schema = Json::obj();
    schema.set("type", Json::Str(String::from_str("object")));
    schema.set("properties", properties);
    assert(seq![("type"@, jstr("object"@)), ("properties"@, pv)] =~= Seq::empty().push(
        ("type"@, jstr("object"@)),
    ).push(("properties"@, pv)));
    if required.len() > 0 {
        let mut req: Vec<Json> = Vec::new();
        let mut i: usize = 0;
        while i < required.len()
            invariant
                i <= required@.len(),
                crate::json::items_view(req@) == texts(required@).take(i as int).map_values(|k: Seq<char>| jstr(k)),
            decreases required@.len() - i,
        {
            let x = Json::Str(String::from_str(required[i]));
            proof {
                crate::json::lemma_items_view_push(req@, x);
            }
            req.push(x);
            assert(texts(required@).take(i + 1).map_values(|k: Seq<char>| jstr(k)) =~= texts(required@).take(
                i as int,
            ).map_values(|k: Seq<char>| jstr(k)).push(jstr(required@[i as int]@)));
            i = i + 1;
        }
        assert(texts(required@).take(required@.len() as int) =~= texts(required@));
        schema.set("required", Json::Arr(req));
    }
    let ghost sv = schema@;
    let mut t = Json::obj();
    t.set("name", Json::Str(String::from_str(name)));
    t.set("description", Json::Str(String::from_str(description)));
    t.set("inputSchema", schema);
    assert(seq![("name"@, jstr(name@)), ("description"@, jstr(description@)), ("inputSchema"@, sv)]
        =~= Seq::empty().push(("name"@, jstr(name@))).push(("description"@, jstr(description@))).push(
        ("inputSchema"@, sv),
    ));
    t
}

/// The property that names the session, shared by most tools.
pub open spec fn id_entry() -> (Seq<char>, JVal) {
    ("id"@, prop_view("string"@, "Identifiant de session (défaut: 'default')."@))
}

/// A named property of the given type and description.
pub open spec fn pe(name: Seq<char>, ty: Seq<char>, desc: Seq<char>) -> (Seq<char>, JVal) {
    (name, prop_view(ty, desc))
}

/// The catalogue of tools, in the order it is listed.
pub open spec fn tool_catalogue() -> Seq<JVal> {
    seq![
        tool_view(
            "rsi_describe"@,
            "Décrit le système RSI (modèle mathématique) et le catalogue de commandes."@,
            JVal::Obj(Seq::empty()),
            Seq::empty(),
        ),
        tool_view(
            "rsi_create"@,
            "Crée (ou remplace) une session d'agent RSI auto-améliorant."@,
            obj_of(seq![
                id_entry(),
                pe("seed"@, "integer"@, "Graine reproductible (défaut 2026)."@),
                pe("optimizer"@, "string"@, "Méta-optimiseur: 'random' ou 'cma' (sep-CMA-ES)."@),
                pe("dim"@, "integer"@, "Dimension de chaque composante de S (défaut 6)."@),
                pe("n_tasks"@, "integer"@, "Taille de l'échantillon de tâches |Ω| (défaut 1024)."@),
                pe("n_hardware"@, "integer"@, "Dimension du vecteur matériel H (défaut 4)."@),
                pe("n_software"@, "integer"@, "Dimension du vecteur logiciel O (défaut 4)."@),
                pe("lambda"@, "number"@, "Borne de stabilité ‖ΔS‖<λ (défaut 0.5)."@),
                pe("epsilon"@, "number"@, "Régression tolérée sur SI_global (défaut 1e-3)."@),
            ]),
            Seq::empty(),
        ),
        tool_view(
            "rsi_step"@,
            "Avance la boucle RSI d'un pas et renvoie le rapport du pas."@,
            obj_of(seq![
                id_entry(),
            ]),
            Seq::empty(),
        ),
        tool_view(
            "rsi_run"@,
            "Avance la boucle RSI de plusieurs pas et renvoie un résumé (gain de SI_global)."@,
            obj_of(seq![
                id_entry(),
                pe("steps"@, "integer"@, "Nombre de pas (défaut 100)."@),
            ]),
            Seq::empty(),
        ),
        tool_view(
            "rsi_run_until"@,
            "Pilote la boucle RSI jusqu'à un critère d'arrêt motivé (budget, cible, plateau, disjoncteur de criticité)."@,
            obj_of(seq![
                id_entry(),
                pe("max_steps"@, "integer"@, "Budget de pas (défaut 500)."@),
                pe("target_si"@, "number"@, "Arrêt si SI_global ≥ cette valeur."@),
                pe("plateau_window"@, "integer"@, "Fenêtre de détection de plateau (défaut 12)."@),
                pe("plateau_eps"@, "number"@, "Seuil de pente sous lequel = plateau."@),
                pe("breaker_rpn"@, "number"@, "Disjoncteur : arrêt/rollback si max_rpn dépasse ce seuil."@),
                pe("max_seconds"@, "number"@, "Budget de temps (s)."@),
            ]),
            Seq::empty(),
        ),
        tool_view(
            "rsi_state"@,
            "Renvoie un instantané: SI_global, P_eff, capacités (D,M,R,A,C,V), goulot d'étranglement."@,
            obj_of(seq![
                id_entry(),
            ]),
            Seq::empty(),
        ),
        tool_view(
            "rsi_export"@,
            "Exporte la trajectoire accumulée de la session au format csv ou json."@,
            obj_of(seq![
                id_entry(),
                pe("format"@, "string"@, "'csv' ou 'json' (défaut json)."@),
            ]),
            Seq::empty(),
        ),
        tool_view(
            "rsi_reset"@,
            "Réinitialise la session à partir de sa configuration."@,
            obj_of(seq![
                id_entry(),
            ]),
            Seq::empty(),
        ),
        tool_view(
            "rsi_list_sessions"@,
            "Liste les sessions actives."@,
            JVal::Obj(Seq::empty()),
            Seq::empty(),
        ),
        tool_view(
            "rsi_refine_new"@,
            "Crée une session de raffinement piloté par LLM. Le LLM propose des candidats (texte) ; le serveur les évalue en sandbox et n'adopte que les strictement meilleurs et sûrs — le LLM ne contrôle aucun garde-fou. Deux domaines : 'synthesis' (expressions arithmétiques) et 'tuning' (hyperparamètres JSON)."@,
            obj_of(seq![
                id_entry(),
                pe("domain"@, "string"@, "Domaine: 'synthesis' (défaut) ou 'tuning'."@),
                pe("target"@, "string"@, "[synthesis] cible: 'quadratic' (x²+1), 'linear' (2x-1), 'cubic' (x³-x)."@),
                pe("lo"@, "number"@, "[synthesis] borne basse d'échantillonnage (défaut -3)."@),
                pe("hi"@, "number"@, "[synthesis] borne haute (défaut 3)."@),
                pe("n"@, "integer"@, "[synthesis] nombre de points (défaut 30 ; ~30% en held-out)."@),
                pe("seed"@, "integer"@, "[synthesis] graine reproductible (défaut 2026)."@),
            ]),
            Seq::empty(),
        ),
        tool_view(
            "rsi_incumbent"@,
            "Renvoie l'incumbent courant d'une session de raffinement : expression, score (fraction de cas réussis), score held-out (généralisation), taille, compteurs."@,
            obj_of(seq![
                id_entry(),
            ]),
            Seq::empty(),
        ),
        tool_view(
            "rsi_evaluate"@,
            "Évalue un candidat SANS l'adopter (sonde pour le raisonnement). Renvoie score, held-out, sûreté et s'il serait adopté. N'altère pas l'incumbent."@,
            obj_of(seq![
                id_entry(),
                pe("candidate"@, "string"@, "Candidat texte. synthesis: expression sur x (ex: 'x*x + 1'). tuning: config JSON (ex: '{\"top_k\":50,\"chunk\":1024,\"threshold\":0.4}')."@),
            ]),
            seq!["candidate"@],
        ),
        tool_view(
            "rsi_propose"@,
            "Soumet une ou plusieurs propositions d'expressions. Le serveur parse, vérifie la sûreté (taille bornée), score, et n'adopte qu'élitistement (strictement meilleur ET sûr). Renvoie le détail par proposition et le nouvel incumbent."@,
            obj_of(seq![
                id_entry(),
                pe("proposals"@, "array"@, "Tableau de candidats (chaînes) : expressions (synthesis) ou configs JSON (tuning)."@),
                pe("candidate"@, "string"@, "Alternative: un ou plusieurs candidats, un par ligne."@),
            ]),
            Seq::empty(),
        ),
    ]
}

/// The property that names the session.
fn id_prop() -> (e: (&'static str, Json))
    ensures
        e.0@ == id_entry().0,
        e.1@ == id_entry().1,
{
    ("id", prop("string", "Identifiant de session (défaut: 'default')."))
}

/// The catalogue of tools, each with its input schema.
#[verifier::rlimit(60)]
pub fn tools_list() -> (r: Json)
    ensures
        r@ == obj_of(seq![("tools"@, JVal::Arr(tool_catalogue()))]),
{
    broadcast use crate::json::lemma_obj_of_push, crate::json::lemma_obj_of_empty;
    let none: [&str; 0] = [];
    assert(texts(none@) =~= Seq::<Seq<char>>::empty());
    let mut tools: Vec<Json> = Vec::new();
    let ghost cat = tool_catalogue();
    let t0 = tool(
        "rsi_describe",
        "Décrit le système RSI (modèle mathématique) et le catalogue de commandes.",
        Json::obj(),
        &none,
    );
    assert(t0@ == cat[0]);
    proof {
        crate::json::lemma_items_view_push(tools@, t0);
    }
    tools.push(t0);
    let a1 = [
        id_prop(),
        ("seed", prop("integer", "Graine reproductible (défaut 2026).")),
        ("optimizer", prop("string", "Méta-optimiseur: 'random' ou 'cma' (sep-CMA-ES).")),
        ("dim", prop("integer", "Dimension de chaque composante de S (défaut 6).")),
        ("n_tasks", prop("integer", "Taille de l'échantillon de tâches |Ω| (défaut 1024).")),
        ("n_hardware", prop("integer", "Dimension du vecteur matériel H (défaut 4).")),
        ("n_software", prop("integer", "Dimension du vecteur logiciel O (défaut 4).")),
        ("lambda", prop("number", "Borne de stabilité ‖ΔS‖<λ (défaut 0.5).")),
        ("epsilon", prop("number", "Régression tolérée sur SI_global (défaut 1e-3).")),
    ];
    assert(pairs_view(a1@) =~= seq![
        id_entry(),
        pe("seed"@, "integer"@, "Graine reproductible (défaut 2026)."@),
        pe("optimizer"@, "string"@, "Méta-optimiseur: 'random' ou 'cma' (sep-CMA-ES)."@),
        pe("dim"@, "integer"@, "Dimension de chaque composante de S (défaut 6)."@),
        pe("n_tasks"@, "integer"@, "Taille de l'échantillon de tâches |Ω| (défaut 1024)."@),
        pe("n_hardware"@, "integer"@, "Dimension du vecteur matériel H (défaut 4)."@),
        pe("n_software"@, "integer"@, "Dimension du vecteur logiciel O (défaut 4)."@),
        pe("lambda"@, "number"@, "Borne de stabilité ‖ΔS‖<λ (défaut 0.5)."@),
        pe("epsilon"@, "number"@, "Régression tolérée sur SI_global (défaut 1e-3)."@),
    ]);
    let p1 = props(&a1);
    let t1 = tool(
        "rsi_create",
        "Crée (ou remplace) une session d'agent RSI auto-améliorant.",
        p1,
        &none,
    );
    assert(t1@ == cat[1]);
    proof {
        crate::json::lemma_items_view_push(tools@, t1);
    }
    tools.push(t1);
    let a2 = [
        id_prop(),
    ];
    assert(pairs_view(a2@) =~= seq![
        id_entry(),
    ]);
    let p2 = props(&a2);
    let t2 = tool(
        "rsi_step",
        "Avance la boucle RSI d'un pas et renvoie le rapport du pas.",
        p2,
        &none,
    );
    assert(t2@ == cat[2]);
    proof {
        crate::json::lemma_items_view_push(tools@, t2);
    }
    tools.push(t2);
    let a3 = [
        id_prop(),
        ("steps", prop("integer", "Nombre de pas (défaut 100).")),
    ];
    assert(pairs_view(a3@) =~= seq![
        id_entry(),
        pe("steps"@, "integer"@, "Nombre de pas (défaut 100)."@),
    ]);
    let p3 = props(&a3);
    let t3 = tool(
        "rsi_run",
        "Avance la boucle RSI de plusieurs pas et renvoie un résumé (gain de SI_global).",
        p3,
        &none,
    );
    assert(t3@ == cat[3]);
    proof {
        crate::json::lemma_items_view_push(tools@, t3);
    }
    tools.push(t3);
    let a4 = [
        id_prop(),
        ("max_steps", prop("integer", "Budget de pas (défaut 500).")),
        ("target_si", prop("number", "Arrêt si SI_global ≥ cette valeur.")),
        ("plateau_window", prop("integer", "Fenêtre de détection de plateau (défaut 12).")),
        ("plateau_eps", prop("number", "Seuil de pente sous lequel = plateau.")),
        ("breaker_rpn", prop("number", "Disjoncteur : arrêt/rollback si max_rpn dépasse ce seuil.")),
        ("max_seconds", prop("number", "Budget de temps (s).")),
    ];
    assert(pairs_view(a4@) =~= seq![
        id_entry(),
        pe("max_steps"@, "integer"@, "Budget de pas (défaut 500)."@),
        pe("target_si"@, "number"@, "Arrêt si SI_global ≥ cette valeur."@),
        pe("plateau_window"@, "integer"@, "Fenêtre de détection de plateau (défaut 12)."@),
        pe("plateau_eps"@, "number"@, "Seuil de pente sous lequel = plateau."@),
        pe("breaker_rpn"@, "number"@, "Disjoncteur : arrêt/rollback si max_rpn dépasse ce seuil."@),
        pe("max_seconds"@, "number"@, "Budget de temps (s)."@),
    ]);
    let p4 = props(&a4);
    let t4 = tool(
        "rsi_run_until",
        "Pilote la boucle RSI jusqu'à un critère d'arrêt motivé (budget, cible, plateau, disjoncteur de criticité).",
        p4,
        &none,
    );
    assert(t4@ == cat[4]);
    proof {
        crate::json::lemma_items_view_push(tools@, t4);
    }
    tools.push(t4);
    let a5 = [
        id_prop(),
    ];
    assert(pairs_view(a5@) =~= seq![
        id_entry(),
    ]);
    let p5 = props(&a5);
    let t5 = tool(
        "rsi_state",
        "Renvoie un instantané: SI_global, P_eff, capacités (D,M,R,A,C,V), goulot d'étranglement.",
        p5,
        &none,
    );
    assert(t5@ == cat[5]);
    proof {
        crate::json::lemma_items_view_push(tools@, t5);
    }
    tools.push(t5);
    let a6 = [
        id_prop(),
        ("format", prop("string", "'csv' ou 'json' (défaut json).")),
    ];
    assert(pairs_view(a6@) =~= seq![
        id_entry(),
        pe("format"@, "string"@, "'csv' ou 'json' (défaut json)."@),
    ]);
    let p6 = props(&a6);
    let t6 = tool(
        "rsi_export",
        "Exporte la trajectoire accumulée de la session au format csv ou json.",
        p6,
        &none,
    );
    assert(t6@ == cat[6]);
    proof {
        crate::json::lemma_items_view_push(tools@, t6);
    }
    tools.push(t6);
    let a7 = [
        id_prop(),
    ];
    assert(pairs_view(a7@) =~= seq![
        id_entry(),
    ]);
    let p7 = props(&a7);
    let t7 = tool(
        "rsi_reset",
        "Réinitialise la session à partir de sa configuration.",
        p7,
        &none,
    );
    assert(t7@ == cat[7]);
    proof {
        crate::json::lemma_items_view_push(tools@, t7);
    }
    tools.push(t7);
    let t8 = tool(
        "rsi_list_sessions",
        "Liste les sessions actives.",
        Json::obj(),
        &none,
    );
    assert(t8@ == cat[8]);
    proof {
        crate::json::lemma_items_view_push(tools@, t8);
    }
    tools.push(t8);
    let a9 = [
        id_prop(),
        ("domain", prop("string", "Domaine: 'synthesis' (défaut) ou 'tuning'.")),
        ("target", prop("string", "[synthesis] cible: 'quadratic' (x²+1), 'linear' (2x-1), 'cubic' (x³-x).")),
        ("lo", prop("number", "[synthesis] borne basse d'échantillonnage (défaut -3).")),
        ("hi", prop("number", "[synthesis] borne haute (défaut 3).")),
        ("n", prop("integer", "[synthesis] nombre de points (défaut 30 ; ~30% en held-out).")),
        ("seed", prop("integer", "[synthesis] graine reproductible (défaut 2026).")),
    ];
    assert(pairs_view(a9@) =~= seq![
        id_entry(),
        pe("domain"@, "string"@, "Domaine: 'synthesis' (défaut) ou 'tuning'."@),
        pe("target"@, "string"@, "[synthesis] cible: 'quadratic' (x²+1), 'linear' (2x-1), 'cubic' (x³-x)."@),
        pe("lo"@, "number"@, "[synthesis] borne basse d'échantillonnage (défaut -3)."@),
        pe("hi"@, "number"@, "[synthesis] borne haute (défaut 3)."@),
        pe("n"@, "integer"@, "[synthesis] nombre de points (défaut 30 ; ~30% en held-out)."@),
        pe("seed"@, "integer"@, "[synthesis] graine reproductible (défaut 2026)."@),
    ]);
    let p9 = props(&a9);
    let t9 = tool(
        "rsi_refine_new",
        "Crée une session de raffinement piloté par LLM. Le LLM propose des candidats (texte) ; le serveur les évalue en sandbox et n'adopte que les strictement meilleurs et sûrs — le LLM ne contrôle aucun garde-fou. Deux domaines : 'synthesis' (expressions arithmétiques) et 'tuning' (hyperparamètres JSON).",
        p9,
        &none,
    );
    assert(t9@ == cat[9]);
    proof {
        crate::json::lemma_items_view_push(tools@, t9);
    }
    tools.push(t9);
    let a10 = [
        id_prop(),
    ];
    assert(pairs_view(a10@) =~= seq![
        id_entry(),
    ]);
    let p10 = props(&a10);
    let t10 = tool(
        "rsi_incumbent",
        "Renvoie l'incumbent courant d'une session de raffinement : expression, score (fraction de cas réussis), score held-out (généralisation), taille, compteurs.",
        p10,
        &none,
    );
    assert(t10@ == cat[10]);
    proof {
        crate::json::lemma_items_view_push(tools@, t10);
    }
    tools.push(t10);
    let a11 = [
        id_prop(),
        ("candidate", prop("string", "Candidat texte. synthesis: expression sur x (ex: 'x*x + 1'). tuning: config JSON (ex: '{\"top_k\":50,\"chunk\":1024,\"threshold\":0.4}').")),
    ];
    assert(pairs_view(a11@) =~= seq![
        id_entry(),
        pe("candidate"@, "string"@, "Candidat texte. synthesis: expression sur x (ex: 'x*x + 1'). tuning: config JSON (ex: '{\"top_k\":50,\"chunk\":1024,\"threshold\":0.4}')."@),
    ]);
    let p11 = props(&a11);
    let r11 = ["candidate"];
    assert(texts(r11@) =~= seq!["candidate"@]);
    let t11 = tool(
        "rsi_evaluate",
        "Évalue un candidat SANS l'adopter (sonde pour le raisonnement). Renvoie score, held-out, sûreté et s'il serait adopté. N'altère pas l'incumbent.",
        p11,
        &r11,
    );
    assert(t11@ == cat[11]);
    proof {
        crate::json::lemma_items_view_push(tools@, t11);
    }
    tools.push(t11);
    let a12 = [
        id_prop(),
        ("proposals", prop("array", "Tableau de candidats (chaînes) : expressions (synthesis) ou configs JSON (tuning).")),
        ("candidate", prop("string", "Alternative: un ou plusieurs candidats, un par ligne.")),
    ];
    assert(pairs_view(a12@) =~= seq![
        id_entry(),
        pe("proposals"@, "array"@, "Tableau de candidats (chaînes) : expressions (synthesis) ou configs JSON (tuning)."@),
        pe("candidate"@, "string"@, "Alternative: un ou plusieurs candidats, un par ligne."@),
    ]);
    let p12 = props(&a12);
    let t12 = tool(
        "rsi_propose",
        "Soumet une ou plusieurs propositions d'expressions. Le serveur parse, vérifie la sûreté (taille bornée), score, et n'adopte qu'élitistement (strictement meilleur ET sûr). Renvoie le détail par proposition et le nouvel incumbent.",
        p12,
        &none,
    );
    assert(t12@ == cat[12]);
    proof {
        crate::json::lemma_items_view_push(tools@, t12);
    }
    tools.push(t12);
    assert(crate::json::items_view(tools@) =~= cat);
    let mut out = Json::obj();
    out.set("tools", Json::Arr(tools));
    assert(seq![("tools"@, JVal::Arr(cat))] =~= Seq::empty().push(("tools"@, JVal::Arr(cat))));
    out
}

/// The handshake answer: protocol version, capabilities (tools), server
/// name and `version`, and instructions.
pub open spec fn initialize_view(version: Seq<char>) -> JVal {
    obj_of(
        seq![
            ("protocolVersion"@, jstr(PROTOCOL_VERSION@)),
            ("capabilities"@, obj_of(seq![("tools"@, JVal::Obj(Seq::empty()))])),
            ("serverInfo"@, obj_of(seq![("name"@, jstr("rsi-mcp"@)), ("version"@, jstr(version))])),
            ("instructions"@, jstr(INSTRUCTIONS@)),
        ],
    )
}

/// Instructions sent with the handshake.
pub const INSTRUCTIONS: &'static str = "Système d'auto-amélioration récursive (RSI). Utilisez 'rsi_create' pour instancier un agent, 'rsi_run'/'rsi_step' pour le faire évoluer, 'rsi_state' pour l'inspecter, 'rsi_export' pour récupérer la trajectoire. 'rsi_describe' documente le modèle mathématique.";

/// Builds the handshake answer for a server of the given version.
pub fn initialize_result(version: &str) -> (r: Json)
    ensures
        r@ == initialize_view(version@),
{
    broadcast use crate::json::lemma_obj_of_push, crate::json::lemma_obj_of_empty;
    let mut caps = Json::obj();
    caps.set("tools", Json::obj());
    let ghost c = caps@;
    assert(seq![("tools"@, JVal::Obj(Seq::empty()))] =~= Seq::empty().push(("tools"@, JVal::Obj(Seq::empty()))));
    let mut server = Json::obj();
    server.set("name", Json::Str(String::from_str("rsi-mcp")));
    server.set("version", Json::Str(String::from_str(version)));
    let ghost sv = server@;
    assert(seq![("name"@, jstr("rsi-mcp"@)), ("version"@, jstr(version@))] =~= Seq::empty().push(
        ("name"@, jstr("rsi-mcp"@)),
    ).push(("version"@, jstr(version@))));
    let mut out = Json::obj();
    out.set("protocolVersion", Json::Str(String::from_str(PROTOCOL_VERSION)));
    out.set("capabilities", caps);
    out.set("serverInfo", server);
    out.set("instructions", Json::Str(String::from_str(INSTRUCTIONS)));
    assert(seq![
        ("protocolVersion"@, jstr(PROTOCOL_VERSION@)),
        ("capabilities"@, c),
        ("serverInfo"@, sv),
        ("instructions"@, jstr(INSTRUCTIONS@)),
    ] =~= Seq::empty().push(("protocolVersion"@, jstr(PROTOCOL_VERSION@))).push(("capabilities"@, c)).push(
        ("serverInfo"@, sv),
    ).push(("instructions"@, jstr(INSTRUCTIONS@))));
    out
}

/// A tool's result in the content format: one text item holding the
/// serialised value, flagged as an error when it is one.
pub open spec fn tool_text_view(value: JVal, is_error: bool) -> JVal {
    let text = obj_of(seq![("type"@, jstr("text"@)), ("text"@, jstr(crate::json_text::json_text(value)))]);
    let base = obj_of(seq![("content"@, JVal::Arr(seq![text]))]);
    if is_error {
        crate::json::set_view(base, "isError"@, JVal::Bool(true))
    } else {
        base
    }
}

/// Wraps a value as a tool's result.
pub fn tool_text_result(value: &Json, is_error: bool) -> (r: Json)
    ensures
        r@ == tool_text_view(value@, is_error),
{
    broadcast use crate::json::lemma_obj_of_push, crate::json::lemma_obj_of_empty;
    let mut text = Json::obj();
    text.set("type", Json::Str(String::from_str("text")));
    text.set("text", Json::Str(value.to_string()));
    let ghost tv = text@;
    assert(seq![("type"@, jstr("text"@)), ("text"@, jstr(crate::json_text::json_text(value@)))] =~= Seq::empty().push(
        ("type"@, jstr("text"@)),
    ).push(("text"@, jstr(crate::json_text::json_text(value@)))));
    let mut items: Vec<Json> = Vec::new();
    proof {
        crate::json::lemma_items_view_push(items@, text);
    }
    items.push(text);
    assert(crate::json::items_view(items@) =~= seq![tv]);
    let mut out = Json::obj();
    out.set("content", Json::Arr(items));
    assert(seq![("content"@, JVal::Arr(seq![tv]))] =~= Seq::empty().push(("content"@, JVal::Arr(seq![tv]))));
    if is_error {
        out.set("isError", Json::Bool(true));
    }
    out
}

/// A request line of `n` bytes that the bounded read cut before its end of
/// line is refused.
pub fn exceeds_line_limit(n: usize, ends_with_newline: bool) -> (r: bool)
    ensures
        r == (n >= MAX_LINE_BYTES && !ends_with_newline),
{
    n >= MAX_LINE_BYTES && !ends_with_newline
}

/// The answer to a request line over the size bound.
pub fn oversized_request_response() -> (r: Json)
    ensures
        r@ == error_view(JVal::Null, -32600, "request line exceeds 16 MiB limit"@),
{
    error_response(&Json::Null, -32600, "request line exceeds 16 MiB limit")
}

/// The answer to a line that is not JSON, given the parser's message.
pub fn parse_error_response(detail: &str) -> (r: Json)
    ensures
        r@ == error_view(JVal::Null, -32700, "parse error: "@ + detail@),
{
    let mut m = String::from_str("parse error: ");
    m.append(detail);
    error_response(&Json::Null, -32700, m.as_str())
}

// ----------------------------------------------------------------------- //
// Requests
// ----------------------------------------------------------------------- //

/// The identifier of a request; null when it has none.
pub open spec fn request_id(req: JVal) -> JVal {
    match get_view(req, "id"@) {
        Some(v) => v,
        None => JVal::Null,
    }
}

/// A request without identifier is a notification: it gets no answer.
pub open spec fn is_notification(req: JVal) -> bool {
    get_view(req, "id"@) is None
}

/// The method of a request; empty when it has none or it is not a string.
pub open spec fn request_method(req: JVal) -> Seq<char> {
    match get_view(req, "method"@) {
        Some(JVal::Str(m)) => m,
        _ => Seq::empty(),
    }
}

/// A tool's name without its `rsi_` prefix, when it has one.
pub open spec fn command_of_tool(name: Seq<char>) -> Seq<char> {
    let p = "rsi_"@;
    if p.len() <= name.len() && name.subrange(0, p.len() as int) == p {
        name.subrange(p.len() as int, name.len() as int)
    } else {
        name
    }
}

/// What a tool call runs: the command and its arguments (an empty object
/// when there are none), or the error code and message when the parameters
/// or the tool's name are missing.
pub open spec fn call_target(params: Option<JVal>) -> Result<(Seq<char>, JVal), (int, Seq<char>)> {
    match params {
        None => Err((-32602, "params manquants"@)),
        Some(p) => match get_view(p, "name"@) {
            Some(JVal::Str(name)) => Ok(
                (
                    command_of_tool(name),
                    match get_view(p, "arguments"@) {
                        Some(a) => a,
                        None => JVal::Obj(Seq::empty()),
                    },
                ),
            ),
            _ => Err((-32602, "nom d'outil manquant"@)),
        },
    }
}

/// Model of what a request leads to.
pub enum PlanModel {
    /// No answer.
    Silent,
    /// This answer.
    Reply(JVal),
    /// Run `command` with `args` on the API, then answer (unless the request
    /// is a notification).
    Call { id: JVal, notification: bool, command: Seq<char>, args: JVal },
}

/// What a request leads to. The initialized notification is never answered;
/// a tool call runs its command even when it is a notification; any other
/// notification is not answered; the handshake, `ping` and the catalogue are
/// answered at once; an unknown method is an error.
pub open spec fn plan_view(req: JVal, version: Seq<char>) -> PlanModel {
    let m = request_method(req);
    let id = request_id(req);
    if m == "notifications/initialized"@ || m == "initialized"@ {
        PlanModel::Silent
    } else if m == "tools/call"@ {
        match call_target(get_view(req, "params"@)) {
            Ok((c, a)) => PlanModel::Call { id, notification: is_notification(req), command: c, args: a },
            Err((code, msg)) => if is_notification(req) {
                PlanModel::Silent
            } else {
                PlanModel::Reply(error_view(id, code, msg))
            },
        }
    } else if is_notification(req) {
        PlanModel::Silent
    } else if m == "initialize"@ {
        PlanModel::Reply(success_view(id, initialize_view(version)))
    } else if m == "ping"@ {
        PlanModel::Reply(success_view(id, JVal::Obj(Seq::empty())))
    } else if m == "tools/list"@ {
        PlanModel::Reply(success_view(id, obj_of(seq![("tools"@, JVal::Arr(tool_catalogue()))])))
    } else {
        PlanModel::Reply(error_view(id, -32601, "méthode inconnue : '"@ + m + "'"@))
    }
}

/// What a request leads to.
pub enum RpcPlan {
    /// No answer.
    Silent,
    /// This answer.
    Reply(Json),
    /// Run `command` with `args` on the API, then pass its outcome to
    /// [`finish_call`].
    Call { id: Json, notification: bool, command: String, args: Json },
}

impl View for RpcPlan {
    type V = PlanModel;

    open spec fn view(&self) -> PlanModel {
        match self {
            RpcPlan::Silent => PlanModel::Silent,
            RpcPlan::Reply(j) => PlanModel::Reply(j@),
            RpcPlan::Call { id, notification, command, args } => PlanModel::Call {
                id: id@,
                notification: *notification,
                command: command@,
                args: args@,
            },
        }
    }
}

/// The command and arguments of a tool call, or the error to answer.
pub fn tool_call_target(params: Option<&Json>) -> (r: Result<(String, Json), (i64, String)>)
    ensures
        match call_target(
            match params {
                Some(p) => Some(p@),
                None => None::<JVal>,
            },
        ) {
            Ok((c, a)) => r matches Ok((c2, a2)) && c2@ == c && a2@ == a,
            Err((code, msg)) => r matches Err((code2, msg2)) && code2 as int == code && msg2@ == msg,
        },
{
    let p = match params {
        None => {
            return Err((-32602, String::from_str("params manquants")));
        },
        Some(p) => p,
    };
    let name = match p.get("name") {
        Some(n) => match n.as_str() {
            Some(s) => s,
            None => {
                return Err((-32602, String::from_str("nom d'outil manquant")));
            },
        },
        None => {
            return Err((-32602, String::from_str("nom d'outil manquant")));
        },
    };
    let args = match p.get("arguments") {
        Some(a) => a.copy_value(),
        None => Json::obj(),
    };
    let command = match crate::text::strip_prefix(name, "rsi_") {
        Some(rest) => rest,
        None => String::from_str(name),
    };
    Ok((command, args))
}

/// Decides what a request leads to, for a server of the given version.
pub fn plan_request(req: &Json, version: &str) -> (r: RpcPlan)
    ensures
        r@ == plan_view(req@, version@),
{
    let notification = req.get("id").is_none();
    let id = match req.get("id") {
        Some(v) => v.copy_value(),
        None => Json::Null,
    };
    let method: &str = match req.get("method") {
        Some(v) => match v.as_str() {
            Some(m) => m,
            None => "",
        },
        None => "",
    };
    proof {
        reveal_strlit("");
    }
    assert(method@ == request_method(req@));
    if str_eq(method, "notifications/initialized") || str_eq(method, "initialized") {
        return RpcPlan::Silent;
    }
    if str_eq(method, "tools/call") {
        return match tool_call_target(req.get("params")) {
            Ok((command, args)) => RpcPlan::Call { id, notification, command, args },
            Err((code, msg)) => {
                if notification {
                    RpcPlan::Silent
                } else {
                    RpcPlan::Reply(error_response(&id, code, msg.as_str()))
                }
            },
        };
    }
    if notification {
        return RpcPlan::Silent;
    }
    if str_eq(method, "initialize") {
        RpcPlan::Reply(success_response(&id, initialize_result(version)))
    } else if str_eq(method, "ping") {
        RpcPlan::Reply(success_response(&id, Json::obj()))
    } else if str_eq(method, "tools/list") {
        RpcPlan::Reply(success_response(&id, tools_list()))
    } else {
        let mut m = String::from_str("méthode inconnue : '");
        m.append(method);
        m.append("'");
        RpcPlan::Reply(error_response(&id, -32601, m.as_str()))
    }
}

/// The answer to a tool call once the API ran its command: none for a
/// notification; else the command's value, or its error message flagged as
/// an error, wrapped as a tool result.
pub open spec fn finish_view(id: JVal, notification: bool, outcome: Result<JVal, Seq<char>>) -> Option<JVal> {
    if notification {
        None
    } else {
        match outcome {
            Ok(v) => Some(success_view(id, tool_text_view(v, false))),
            Err(e) => Some(success_view(id, tool_text_view(JVal::Str(e), true))),
        }
    }
}

/// Builds the answer to a tool call from the API's outcome.
pub fn finish_call(id: &Json, notification: bool, outcome: &Result<Json, String>) -> (r: Option<Json>)
    ensures
        r matches Some(j) ==> finish_view(id@, notification, match outcome {
            Ok(v) => Ok(v@),
            Err(e) => Err(e@),
        }) == Some(j@),
        r is None <==> notification,
{
    if notification {
        return None;
    }
    match outcome {
        Ok(v) => Some(success_response(id, tool_text_result(v, false))),
        Err(e) => Some(success_response(id, tool_text_result(&Json::Str(e.clone()), true))),
    }
}

// ----------------------------------------------------------------------- //
// Laws
// ----------------------------------------------------------------------- //

/// Reading back an entry of a three-entry object built from nothing.
proof fn lemma_get_third_of_three(
    k1: Seq<char>,
    v1: JVal,
    k2: Seq<char>,
    v2: JVal,
    k3: Seq<char>,
    v3: JVal,
)
    requires
        k1 != k2,
        k2 != k3,
        k1 != k3,
    ensures
        ({
            let o = crate::json::set_view(
                crate::json::set_view(crate::json::set_view(JVal::Obj(Seq::empty()), k1, v1), k2, v2),
                k3,
                v3,
            );
            &&& get_view(o, k1) == Some(v1)
            &&& get_view(o, k2) == Some(v2)
            &&& get_view(o, k3) == Some(v3)
        }),
{
    let o0 = JVal::Obj(Seq::<(Seq<char>, JVal)>::empty());
    let o1 = crate::json::set_view(o0, k1, v1);
    let o2 = crate::json::set_view(o1, k2, v2);
    crate::json_laws::lemma_obj_insert_sorted_keys(Seq::empty(), k1, v1);
    crate::json_laws::lemma_obj_insert_sorted_keys(o1->Obj_0, k2, v2);
    crate::json_laws::law_get_after_set(o0, k1, v1, k2);
    crate::json_laws::law_get_after_set(o1, k2, v2, k1);
    crate::json_laws::law_get_after_set(o2, k3, v3, k1);
    crate::json_laws::law_get_after_set(o2, k3, v3, k2);
}

/// A notification is never answered, whatever its method and whatever the
/// API returns when it runs a tool.
pub proof fn law_notification_unanswered(req: JVal, version: Seq<char>, outcome: Result<JVal, Seq<char>>)
    requires
        is_notification(req),
    ensures
        plan_view(req, version) is Silent || (plan_view(req, version) matches PlanModel::Call {
            notification,
            ..
        } && notification),
        plan_view(req, version) matches PlanModel::Call { id, notification, .. } ==> finish_view(
            id,
            notification,
            outcome,
        ) is None,
{
}

/// Every answer is a JSON-RPC 2.0 message that carries the identifier of the
/// request it answers.
pub proof fn law_answer_carries_id(req: JVal, version: Seq<char>, outcome: Result<JVal, Seq<char>>)
    ensures
        plan_view(req, version) matches PlanModel::Reply(a) ==> get_view(a, "id"@) == Some(request_id(req))
            && get_view(a, "jsonrpc"@) == Some(jstr("2.0"@)),
        plan_view(req, version) matches PlanModel::Call { id, notification, .. } ==> (id == request_id(req) && (
        finish_view(id, notification, outcome) matches Some(a) ==> get_view(a, "id"@) == Some(request_id(req))
            && get_view(a, "jsonrpc"@) == Some(jstr("2.0"@)))),
{
    broadcast use crate::json::lemma_obj_of_push, crate::json::lemma_obj_of_empty;
    reveal_strlit("jsonrpc");
    reveal_strlit("id");
    reveal_strlit("result");
    reveal_strlit("error");
    let id = request_id(req);
    let j = jstr("2.0"@);
    assert forall|x: JVal| #![auto] get_view(success_view(id, x), "id"@) == Some(id) && get_view(
        success_view(id, x),
        "jsonrpc"@,
    ) == Some(j) by {
        assert(seq![("jsonrpc"@, j), ("id"@, id), ("result"@, x)] =~= Seq::empty().push(("jsonrpc"@, j)).push(
            ("id"@, id),
        ).push(("result"@, x)));
        lemma_get_third_of_three("jsonrpc"@, j, "id"@, id, "result"@, x);
    }
    assert forall|x: JVal| #![auto] get_view(
        obj_of(seq![("jsonrpc"@, j), ("id"@, id), ("error"@, x)]),
        "id"@,
    ) == Some(id) && get_view(obj_of(seq![("jsonrpc"@, j), ("id"@, id), ("error"@, x)]), "jsonrpc"@) == Some(j) by {
        assert(seq![("jsonrpc"@, j), ("id"@, id), ("error"@, x)] =~= Seq::empty().push(("jsonrpc"@, j)).push(
            ("id"@, id),
        ).push(("error"@, x)));
        lemma_get_third_of_three("jsonrpc"@, j, "id"@, id, "error"@, x);
    }
}

/// A request with an identifier for the catalogue (`tools/list`) is
/// answered at once with the catalogue: the answer's `result` is the object
/// whose `tools` entry is the list of every tool, the list `tools_list`
/// builds.
pub proof fn law_tools_list_answered(req: JVal, version: Seq<char>)
    requires
        get_view(req, "id"@) is Some,
        get_view(req, "method"@) == Some(jstr("tools/list"@)),
    ensures
        plan_view(req, version) matches PlanModel::Reply(a) && get_view(a, "id"@) == get_view(req, "id"@)
            && (get_view(a, "result"@) matches Some(r) && get_view(r, "tools"@) == Some(
            JVal::Arr(tool_catalogue()),
        )),
{
    broadcast use crate::json::lemma_obj_of_push, crate::json::lemma_obj_of_empty;
    reveal_strlit("tools/list");
    reveal_strlit("notifications/initialized");
    reveal_strlit("initialized");
    reveal_strlit("tools/call");
    reveal_strlit("initialize");
    reveal_strlit("ping");
    reveal_strlit("jsonrpc");
    reveal_strlit("id");
    reveal_strlit("result");
    reveal_strlit("tools");
    let m = "tools/list"@;
    assert(m != "notifications/initialized"@);
    assert(m != "initialized"@);
    assert(m != "tools/call"@) by {
        assert(m[6] != "tools/call"@[6]);
    }
    assert(m != "initialize"@) by {
        assert(m[0] != "initialize"@[0]);
    }
    assert(m != "ping"@);
    assert(request_method(req) == m);
    let id = request_id(req);
    let cat = obj_of(seq![("tools"@, JVal::Arr(tool_catalogue()))]);
    assert(seq![("tools"@, JVal::Arr(tool_catalogue()))] =~= Seq::empty().push(
        ("tools"@, JVal::Arr(tool_catalogue())),
    ));
    crate::json_laws::law_get_after_set(JVal::Obj(Seq::empty()), "tools"@, JVal::Arr(tool_catalogue()), "tools"@);
    let j = jstr("2.0"@);
    assert(seq![("jsonrpc"@, j), ("id"@, id), ("result"@, cat)] =~= Seq::empty().push(("jsonrpc"@, j)).push(
        ("id"@, id),
    ).push(("result"@, cat)));
    lemma_get_third_of_three("jsonrpc"@, j, "id"@, id, "result"@, cat);
}

/// The name entry of a tool description is its name.
pub broadcast proof fn lemma_tool_name_of(name: Seq<char>, desc: Seq<char>, properties: JVal, required: Seq<Seq<char>>)
    ensures
        get_view(#[trigger] tool_view(name, desc, properties, required), "name"@) == Some(jstr(name)),
{
    broadcast use crate::json::lemma_obj_of_push, crate::json::lemma_obj_of_empty;
    reveal_strlit("name");
    reveal_strlit("description");
    reveal_strlit("inputSchema");
    let sv = schema_view(properties, required);
    assert(seq![("name"@, jstr(name)), ("description"@, jstr(desc)), ("inputSchema"@, sv)] =~= Seq::empty().push(
        ("name"@, jstr(name)),
    ).push(("description"@, jstr(desc))).push(("inputSchema"@, sv)));
    lemma_get_third_of_three("name"@, jstr(name), "description"@, jstr(desc), "inputSchema"@, sv);
}

/// The catalogue lists thirteen tools, by these names and in this order.
pub proof fn law_catalogue_names()
    ensures
        tool_catalogue().len() == 13,
        get_view(tool_catalogue()[0], "name"@) == Some(jstr("rsi_describe"@)),
        get_view(tool_catalogue()[1], "name"@) == Some(jstr("rsi_create"@)),
        get_view(tool_catalogue()[2], "name"@) == Some(jstr("rsi_step"@)),
        get_view(tool_catalogue()[3], "name"@) == Some(jstr("rsi_run"@)),
        get_view(tool_catalogue()[4], "name"@) == Some(jstr("rsi_run_until"@)),
        get_view(tool_catalogue()[5], "name"@) == Some(jstr("rsi_state"@)),
        get_view(tool_catalogue()[6], "name"@) == Some(jstr("rsi_export"@)),
        get_view(tool_catalogue()[7], "name"@) == Some(jstr("rsi_reset"@)),
        get_view(tool_catalogue()[8], "name"@) == Some(jstr("rsi_list_sessions"@)),
        get_view(tool_catalogue()[9], "name"@) == Some(jstr("rsi_refine_new"@)),
        get_view(tool_catalogue()[10], "name"@) == Some(jstr("rsi_incumbent"@)),
        get_view(tool_catalogue()[11], "name"@) == Some(jstr("rsi_evaluate"@)),
        get_view(tool_catalogue()[12], "name"@) == Some(jstr("rsi_propose"@)),
{
    broadcast use lemma_tool_name_of;
    let c = tool_catalogue();
    assert(c.len() == 13);
}

/// A tool call runs the command named by the tool without its `rsi_`
/// prefix (a name without the prefix is the command itself), with the
/// call's arguments, or an empty object when it has none; whether it is
/// answered depends only on the request having an identifier.
pub proof fn law_tool_call_routing(req: JVal, version: Seq<char>, params: JVal, name: Seq<char>)
    requires
        get_view(req, "method"@) == Some(jstr("tools/call"@)),
        get_view(req, "params"@) == Some(params),
        get_view(params, "name"@) == Some(jstr(name)),
    ensures
        plan_view(req, version) matches PlanModel::Call { id, notification, command, args } && id == request_id(req)
            && notification == (get_view(req, "id"@) is None) && args == (match get_view(params, "arguments"@) {
            Some(a) => a,
            None => JVal::Obj(Seq::empty()),
        }) && command == command_of_tool(name),
        forall|c: Seq<char>| name == "rsi_"@ + c ==> #[trigger] command_of_tool(name) == c,
        !(name.len() >= 4 && name.subrange(0, 4) == "rsi_"@) ==> command_of_tool(name) == name,
{
    reveal_strlit("tools/call");
    reveal_strlit("notifications/initialized");
    reveal_strlit("initialized");
    reveal_strlit("rsi_");
    let m = "tools/call"@;
    assert(m != "notifications/initialized"@);
    assert(m != "initialized"@);
    assert(request_method(req) == m);
    assert forall|c: Seq<char>| name == "rsi_"@ + c implies #[trigger] command_of_tool(name) == c by {
        assert(name.subrange(0, 4) =~= "rsi_"@);
        assert(name.subrange(4, name.len() as int) =~= c);
    }
}

/// A `ping` with an identifier is answered with an empty result.
pub proof fn law_ping_answered(req: JVal, version: Seq<char>)
    requires
        get_view(req, "id"@) is Some,
        get_view(req, "method"@) == Some(jstr("ping"@)),
    ensures
        plan_view(req, version) matches PlanModel::Reply(a) && get_view(a, "id"@) == get_view(req, "id"@)
            && get_view(a, "result"@) == Some(JVal::Obj(Seq::<(Seq<char>, JVal)>::empty())),
{
    broadcast use crate::json::lemma_obj_of_push, crate::json::lemma_obj_of_empty;
    reveal_strlit("ping");
    reveal_strlit("notifications/initialized");
    reveal_strlit("initialized");
    reveal_strlit("tools/call");
    reveal_strlit("initialize");
    reveal_strlit("jsonrpc");
    reveal_strlit("id");
    reveal_strlit("result");
    let m = "ping"@;
    assert(m != "notifications/initialized"@);
    assert(m != "initialized"@);
    assert(m != "tools/call"@);
    assert(m != "initialize"@);
    assert(request_method(req) == m);
    let id = request_id(req);
    let e = JVal::Obj(Seq::<(Seq<char>, JVal)>::empty());
    let j = jstr("2.0"@);
    assert(seq![("jsonrpc"@, j), ("id"@, id), ("result"@, e)] =~= Seq::empty().push(("jsonrpc"@, j)).push(
        ("id"@, id),
    ).push(("result"@, e)));
    lemma_get_third_of_three("jsonrpc"@, j, "id"@, id, "result"@, e);
}

} // verus!
