use vstd::prelude::*;
use crate::dice::random_index;
use crate::protocol::text;

verus! {

/// A weapon that can drop from a fight.
pub struct Weapon {
    pub name: String,
    pub icon: String,
    pub damage_min: u32,
    pub damage_max: u32,
    pub rarity: String,
    pub level_required: u32,
}

/// A potion that can drop from a fight.
pub struct Potion {
    pub name: String,
    pub icon: String,
    pub heal_min: u32,
    pub heal_max: u32,
    pub tier: u8,
    pub rarity: String,
    pub level_required: u32,
}

/// A spell that can drop from a fight.
pub struct Magic {
    pub name: String,
    pub icon: String,
    pub damage_min: u32,
    pub damage_max: u32,
    pub rarity: String,
    pub level_required: u32,
    pub element: String,
}

/// Something that can drop from a fight.
pub enum Item {
    Weapon(Weapon),
    Potion(Potion),
    Magic(Magic),
}

pub struct WeaponView {
    pub name: Seq<char>,
    pub icon: Seq<char>,
    pub damage_min: u32,
    pub damage_max: u32,
    pub rarity: Seq<char>,
    pub level_required: u32,
}

pub struct PotionView {
    pub name: Seq<char>,
    pub icon: Seq<char>,
    pub heal_min: u32,
    pub heal_max: u32,
    pub tier: u8,
    pub rarity: Seq<char>,
    pub level_required: u32,
}

pub struct MagicView {
    pub name: Seq<char>,
    pub icon: Seq<char>,
    pub damage_min: u32,
    pub damage_max: u32,
    pub rarity: Seq<char>,
    pub level_required: u32,
    pub element: Seq<char>,
}

pub enum ItemView {
    Weapon(WeaponView),
    Potion(PotionView),
    Magic(MagicView),
}

impl View for Weapon {
    type V = WeaponView;

    open spec fn view(&self) -> WeaponView {
        WeaponView {
            name: self.name@,
            icon: self.icon@,
            damage_min: self.damage_min,
            damage_max: self.damage_max,
            rarity: self.rarity@,
            level_required: self.level_required,
        }
    }
}

impl View for Potion {
    type V = PotionView;

    open spec fn view(&self) -> PotionView {
        PotionView {
            name: self.name@,
            icon: self.icon@,
            heal_min: self.heal_min,
            heal_max: self.heal_max,
            tier: self.tier,
            rarity: self.rarity@,
            level_required: self.level_required,
        }
    }
}

impl View for Magic {
    type V = MagicView;

    open spec fn view(&self) -> MagicView {
        MagicView {
            name: self.name@,
            icon: self.icon@,
            damage_min: self.damage_min,
            damage_max: self.damage_max,
            rarity: self.rarity@,
            level_required: self.level_required,
            element: self.element@,
        }
    }
}

impl View for Item {
    type V = ItemView;

    open spec fn view(&self) -> ItemView {
        match self {
            Item::Weapon(w) => ItemView::Weapon(w@),
            Item::Potion(p) => ItemView::Potion(p@),
            Item::Magic(m) => ItemView::Magic(m@),
        }
    }
}

impl Weapon {
    pub fn duplicate(&self) -> (r: Weapon)
        ensures
            r == *self,
    {
        Weapon {
            name: self.name.clone(),
            icon: self.icon.clone(),
            damage_min: self.damage_min,
            damage_max: self.damage_max,
            rarity: self.rarity.clone(),
            level_required: self.level_required,
        }
    }
}

impl Potion {
    pub fn duplicate(&self) -> (r: Potion)
        ensures
            r == *self,
    {
        Potion {
            name: self.name.clone(),
            icon: self.icon.clone(),
            heal_min: self.heal_min,
            heal_max: self.heal_max,
            tier: self.tier,
            rarity: self.rarity.clone(),
            level_required: self.level_required,
        }
    }
}

impl Magic {
    pub fn duplicate(&self) -> (r: Magic)
        ensures
            r == *self,
    {
        Magic {
            name: self.name.clone(),
            icon: self.icon.clone(),
            damage_min: self.damage_min,
            damage_max: self.damage_max,
            rarity: self.rarity.clone(),
            level_required: self.level_required,
            element: self.element.clone(),
        }
    }
}

impl Item {
    pub fn duplicate(&self) -> (r: Item)
        ensures
            r == *self,
    {
        match self {
            Item::Weapon(w) => Item::Weapon(w.duplicate()),
            Item::Potion(p) => Item::Potion(p.duplicate()),
            Item::Magic(m) => Item::Magic(m.duplicate()),
        }
    }
}

/// The weapons that can drop, in the order of the pool.
pub open spec fn weapon_table() -> Seq<WeaponView> {
    seq![
        WeaponView { name: "Espada Oxidada"@, icon: "⚔️"@, damage_min: 3, damage_max: 8, rarity: "common"@, level_required: 1 },
        WeaponView { name: "Daga Astillada"@, icon: "🗡️"@, damage_min: 2, damage_max: 6, rarity: "common"@, level_required: 1 },
        WeaponView { name: "Hacha de Madera"@, icon: "🪓"@, damage_min: 4, damage_max: 9, rarity: "common"@, level_required: 1 },
        WeaponView { name: "Espada Corta"@, icon: "⚔️"@, damage_min: 6, damage_max: 14, rarity: "uncommon"@, level_required: 2 },
        WeaponView { name: "Lanza de Hueso"@, icon: "🏹"@, damage_min: 5, damage_max: 12, rarity: "uncommon"@, level_required: 2 },
        WeaponView { name: "Martillo de Piedra"@, icon: "🔨"@, damage_min: 7, damage_max: 15, rarity: "uncommon"@, level_required: 2 },
        WeaponView { name: "Espada Larga"@, icon: "⚔️"@, damage_min: 10, damage_max: 22, rarity: "rare"@, level_required: 3 },
        WeaponView { name: "Arco Élfico"@, icon: "🏹"@, damage_min: 8, damage_max: 20, rarity: "rare"@, level_required: 3 },
        WeaponView { name: "Hacha de Guerra"@, icon: "🪓"@, damage_min: 12, damage_max: 25, rarity: "rare"@, level_required: 3 },
        WeaponView { name: "Mandoble Oscuro"@, icon: "⚔️"@, damage_min: 18, damage_max: 35, rarity: "epic"@, level_required: 4 },
        WeaponView { name: "Ballesta de Sombra"@, icon: "🏹"@, damage_min: 15, damage_max: 32, rarity: "epic"@, level_required: 4 },
        WeaponView { name: "Filo del Abismo"@, icon: "⚔️"@, damage_min: 28, damage_max: 55, rarity: "legendary"@, level_required: 5 },
        WeaponView { name: "Martillo del Caos"@, icon: "🔨"@, damage_min: 25, damage_max: 50, rarity: "legendary"@, level_required: 5 },
    ]
}

/// The potions that can drop, in the order of the pool.
pub open spec fn potion_table() -> Seq<PotionView> {
    seq![
        PotionView { name: "Poción Pequeña"@, icon: "🧪"@, heal_min: 10, heal_max: 20, tier: 1, rarity: "common"@, level_required: 1 },
        PotionView { name: "Hierba Curativa"@, icon: "🌿"@, heal_min: 8, heal_max: 15, tier: 1, rarity: "common"@, level_required: 1 },
        PotionView { name: "Poción Mediana"@, icon: "🍶"@, heal_min: 25, heal_max: 45, tier: 2, rarity: "uncommon"@, level_required: 2 },
        PotionView { name: "Elixir Rojo"@, icon: "🔴"@, heal_min: 20, heal_max: 40, tier: 2, rarity: "uncommon"@, level_required: 2 },
        PotionView { name: "Tónico Vital"@, icon: "💊"@, heal_min: 30, heal_max: 50, tier: 2, rarity: "uncommon"@, level_required: 2 },
        PotionView { name: "Poción Mayor"@, icon: "⚗️"@, heal_min: 60, heal_max: 100, tier: 3, rarity: "rare"@, level_required: 4 },
        PotionView { name: "Elixir Supremo"@, icon: "💉"@, heal_min: 80, heal_max: 130, tier: 3, rarity: "rare"@, level_required: 4 },
    ]
}

/// The spells that can drop, in the order of the pool.
pub open spec fn magic_table() -> Seq<MagicView> {
    seq![
        MagicView { name: "Destello Arcano"@, icon: "✨"@, damage_min: 8, damage_max: 18, rarity: "uncommon"@, level_required: 1, element: "arcane"@ },
        MagicView { name: "Bola de Fuego"@, icon: "🔥"@, damage_min: 12, damage_max: 25, rarity: "rare"@, level_required: 2, element: "fire"@ },
        MagicView { name: "Rayo Gélido"@, icon: "❄️"@, damage_min: 10, damage_max: 22, rarity: "rare"@, level_required: 2, element: "ice"@ },
        MagicView { name: "Cadena de Rayos"@, icon: "⚡"@, damage_min: 15, damage_max: 30, rarity: "rare"@, level_required: 3, element: "lightning"@ },
        MagicView { name: "Nova de Sombra"@, icon: "🌑"@, damage_min: 18, damage_max: 35, rarity: "epic"@, level_required: 3, element: "shadow"@ },
        MagicView { name: "Tormenta Arcana"@, icon: "🌀"@, damage_min: 22, damage_max: 42, rarity: "epic"@, level_required: 4, element: "arcane"@ },
        MagicView { name: "Apocalipsis Ígneo"@, icon: "💥"@, damage_min: 35, damage_max: 65, rarity: "legendary"@, level_required: 5, element: "fire"@ },
        MagicView { name: "Colapso Dimensional"@, icon: "🕳️"@, damage_min: 40, damage_max: 70, rarity: "legendary"@, level_required: 5, element: "void"@ },
    ]
}

/// The weapons that can drop.
pub fn weapons() -> (v: Vec<Weapon>)
    ensures
        v@.len() == weapon_table().len(),
        forall|i: int| 0 <= i < v@.len() ==> (#[trigger] v@[i]).view() == weapon_table()[i],
{
    let mut v: Vec<Weapon> = Vec::new();
    v.push(Weapon { name: text("Espada Oxidada"), icon: text("⚔️"), damage_min: 3, damage_max: 8, rarity: text("common"), level_required: 1 });
    v.push(Weapon { name: text("Daga Astillada"), icon: text("🗡️"), damage_min: 2, damage_max: 6, rarity: text("common"), level_required: 1 });
    v.push(Weapon { name: text("Hacha de Madera"), icon: text("🪓"), damage_min: 4, damage_max: 9, rarity: text("common"), level_required: 1 });
    v.push(Weapon { name: text("Espada Corta"), icon: text("⚔️"), damage_min: 6, damage_max: 14, rarity: text("uncommon"), level_required: 2 });
    v.push(Weapon { name: text("Lanza de Hueso"), icon: text("🏹"), damage_min: 5, damage_max: 12, rarity: text("uncommon"), level_required: 2 });
    v.push(Weapon { name: text("Martillo de Piedra"), icon: text("🔨"), damage_min: 7, damage_max: 15, rarity: text("uncommon"), level_required: 2 });
    v.push(Weapon { name: text("Espada Larga"), icon: text("⚔️"), damage_min: 10, damage_max: 22, rarity: text("rare"), level_required: 3 });
    v.push(Weapon { name: text("Arco Élfico"), icon: text("🏹"), damage_min: 8, damage_max: 20, rarity: text("rare"), level_required: 3 });
    v.push(Weapon { name: text("Hacha de Guerra"), icon: text("🪓"), damage_min: 12, damage_max: 25, rarity: text("rare"), level_required: 3 });
    v.push(Weapon { name: text("Mandoble Oscuro"), icon: text("⚔️"), damage_min: 18, damage_max: 35, rarity: text("epic"), level_required: 4 });
    v.push(Weapon { name: text("Ballesta de Sombra"), icon: text("🏹"), damage_min: 15, damage_max: 32, rarity: text("epic"), level_required: 4 });
    v.push(Weapon { name: text("Filo del Abismo"), icon: text("⚔️"), damage_min: 28, damage_max: 55, rarity: text("legendary"), level_required: 5 });
    v.push(Weapon { name: text("Martillo del Caos"), icon: text("🔨"), damage_min: 25, damage_max: 50, rarity: text("legendary"), level_required: 5 });
    proof {
        assert forall|i: int| 0 <= i < v@.len() implies (#[trigger] v@[i]).view() == weapon_table()[i] by {}
    }
    v
}

/// The potions that can drop.
pub fn potions() -> (v: Vec<Potion>)
    ensures
        v@.len() == potion_table().len(),
        forall|i: int| 0 <= i < v@.len() ==> (#[trigger] v@[i]).view() == potion_table()[i],
{
    let mut v: Vec<Potion> = Vec::new();
    v.push(Potion { name: text("Poción Pequeña"), icon: text("🧪"), heal_min: 10, heal_max: 20, tier: 1, rarity: text("common"), level_required: 1 });
    v.push(Potion { name: text("Hierba Curativa"), icon: text("🌿"), heal_min: 8, heal_max: 15, tier: 1, rarity: text("common"), level_required: 1 });
    v.push(Potion { name: text("Poción Mediana"), icon: text("🍶"), heal_min: 25, heal_max: 45, tier: 2, rarity: text("uncommon"), level_required: 2 });
    v.push(Potion { name: text("Elixir Rojo"), icon: text("🔴"), heal_min: 20, heal_max: 40, tier: 2, rarity: text("uncommon"), level_required: 2 });
    v.push(Potion { name: text("Tónico Vital"), icon: text("💊"), heal_min: 30, heal_max: 50, tier: 2, rarity: text("uncommon"), level_required: 2 });
    v.push(Potion { name: text("Poción Mayor"), icon: text("⚗️"), heal_min: 60, heal_max: 100, tier: 3, rarity: text("rare"), level_required: 4 });
    v.push(Potion { name: text("Elixir Supremo"), icon: text("💉"), heal_min: 80, heal_max: 130, tier: 3, rarity: text("rare"), level_required: 4 });
    proof {
        assert forall|i: int| 0 <= i < v@.len() implies (#[trigger] v@[i]).view() == potion_table()[i] by {}
    }
    v
}

/// The spells that can drop.
pub fn magics() -> (v: Vec<Magic>)
    ensures
        v@.len() == magic_table().len(),
        forall|i: int| 0 <= i < v@.len() ==> (#[trigger] v@[i]).view() == magic_table()[i],
{
    let mut v: Vec<Magic> = Vec::new();
    v.push(Magic { name: text("Destello Arcano"), icon: text("✨"), damage_min: 8, damage_max: 18, rarity: text("uncommon"), level_required: 1, element: text("arcane") });
    v.push(Magic { name: text("Bola de Fuego"), icon: text("🔥"), damage_min: 12, damage_max: 25, rarity: text("rare"), level_required: 2, element: text("fire") });
    v.push(Magic { name: text("Rayo Gélido"), icon: text("❄️"), damage_min: 10, damage_max: 22, rarity: text("rare"), level_required: 2, element: text("ice") });
    v.push(Magic { name: text("Cadena de Rayos"), icon: text("⚡"), damage_min: 15, damage_max: 30, rarity: text("rare"), level_required: 3, element: text("lightning") });
    v.push(Magic { name: text("Nova de Sombra"), icon: text("🌑"), damage_min: 18, damage_max: 35, rarity: text("epic"), level_required: 3, element: text("shadow") });
    v.push(Magic { name: text("Tormenta Arcana"), icon: text("🌀"), damage_min: 22, damage_max: 42, rarity: text("epic"), level_required: 4, element: text("arcane") });
    v.push(Magic { name: text("Apocalipsis Ígneo"), icon: text("💥"), damage_min: 35, damage_max: 65, rarity: text("legendary"), level_required: 5, element: text("fire") });
    v.push(Magic { name: text("Colapso Dimensional"), icon: text("🕳️"), damage_min: 40, damage_max: 70, rarity: text("legendary"), level_required: 5, element: text("void") });
    proof {
        assert forall|i: int| 0 <= i < v@.len() implies (#[trigger] v@[i]).view() == magic_table()[i] by {}
    }
    v
}

/// The weapons of `t` that a hero of `level` may find, each three times.
pub open spec fn weapon_draws(t: Seq<WeaponView>, level: u32) -> Seq<ItemView>
    decreases t.len(),
{
    if t.len() == 0 {
        Seq::empty()
    } else {
        let w = t.last();
        weapon_draws(t.drop_last(), level) + if level >= w.level_required {
            seq![ItemView::Weapon(w), ItemView::Weapon(w), ItemView::Weapon(w)]
        } else {
            Seq::empty()
        }
    }
}

/// The potions of `t` that a hero of `level` may find, each twice.
pub open spec fn potion_draws(t: Seq<PotionView>, level: u32) -> Seq<ItemView>
    decreases t.len(),
{
    if t.len() == 0 {
        Seq::empty()
    } else {
        let p = t.last();
        potion_draws(t.drop_last(), level) + if level >= p.level_required {
            seq![ItemView::Potion(p), ItemView::Potion(p)]
        } else {
            Seq::empty()
        }
    }
}

/// The spells of `t` that a hero of `level` may find, each once.
pub open spec fn magic_draws(t: Seq<MagicView>, level: u32) -> Seq<ItemView>
    decreases t.len(),
{
    if t.len() == 0 {
        Seq::empty()
    } else {
        let m = t.last();
        magic_draws(t.drop_last(), level) + if level >= m.level_required {
            seq![ItemView::Magic(m)]
        } else {
            Seq::empty()
        }
    }
}

/// The pool a drop for a hero of `level` is drawn from: the weapons, potions
/// and spells of its level or below, weapons three times, potions twice and
/// spells once, so that spells are the rarest.
pub open spec fn pool_spec(level: u32) -> Seq<ItemView> {
    weapon_draws(weapon_table(), level) + potion_draws(potion_table(), level) + magic_draws(magic_table(), level)
}

/// The level an item asks of the hero who finds it.
pub open spec fn required_level(it: ItemView) -> u32 {
    match it {
        ItemView::Weapon(w) => w.level_required,
        ItemView::Potion(p) => p.level_required,
        ItemView::Magic(m) => m.level_required,
    }
}

/// How many entries of a table a hero of `level` may find.
pub open spec fn reachable_count<T>(t: Seq<T>, req: spec_fn(T) -> u32, level: u32) -> nat
    decreases t.len(),
{
    if t.len() == 0 {
        0
    } else {
        reachable_count(t.drop_last(), req, level) + if level >= req(t.last()) { 1nat } else { 0nat }
    }
}

proof fn lemma_weapon_draws(t: Seq<WeaponView>, l1: u32, l2: u32, x: ItemView)
    ensures
        forall|i: int| 0 <= i < weapon_draws(t, l1).len() ==> required_level(#[trigger] weapon_draws(t, l1)[i]) <= l1,
        weapon_draws(t, l1).len() == 3 * reachable_count(t, |w: WeaponView| w.level_required, l1),
        l1 <= l2 && weapon_draws(t, l1).contains(x) ==> weapon_draws(t, l2).contains(x),
    decreases t.len(),
{
    if t.len() > 0 {
        lemma_weapon_draws(t.drop_last(), l1, l2, x);
        let w = t.last();
        let init1 = weapon_draws(t.drop_last(), l1);
        let init2 = weapon_draws(t.drop_last(), l2);
        let tail1 = if l1 >= w.level_required { seq![ItemView::Weapon(w), ItemView::Weapon(w), ItemView::Weapon(w)] } else { Seq::empty() };
        let tail2 = if l2 >= w.level_required { seq![ItemView::Weapon(w), ItemView::Weapon(w), ItemView::Weapon(w)] } else { Seq::empty() };
        assert(weapon_draws(t, l1) == init1 + tail1);
        assert(weapon_draws(t, l2) == init2 + tail2);
        assert forall|i: int| 0 <= i < weapon_draws(t, l1).len() implies required_level(#[trigger] weapon_draws(t, l1)[i]) <= l1 by {
            if i >= init1.len() {
                assert(weapon_draws(t, l1)[i] == tail1[i - init1.len()]);
            } else {
                assert(weapon_draws(t, l1)[i] == init1[i]);
            }
        }
        if l1 <= l2 && weapon_draws(t, l1).contains(x) {
            let i = choose|i: int| 0 <= i < weapon_draws(t, l1).len() && weapon_draws(t, l1)[i] == x;
            if i < init1.len() {
                assert(init1[i] == x);
                assert(init2.contains(x));
                let j = choose|j: int| 0 <= j < init2.len() && init2[j] == x;
                assert(weapon_draws(t, l2)[j] == x);
            } else {
                assert(tail1[i - init1.len()] == x);
                assert(weapon_draws(t, l2)[init2.len() as int] == x);
            }
        }
    }
}

proof fn lemma_potion_draws(t: Seq<PotionView>, l1: u32, l2: u32, x: ItemView)
    ensures
        forall|i: int| 0 <= i < potion_draws(t, l1).len() ==> required_level(#[trigger] potion_draws(t, l1)[i]) <= l1,
        potion_draws(t, l1).len() == 2 * reachable_count(t, |p: PotionView| p.level_required, l1),
        l1 <= l2 && potion_draws(t, l1).contains(x) ==> potion_draws(t, l2).contains(x),
    decreases t.len(),
{
    if t.len() > 0 {
        lemma_potion_draws(t.drop_last(), l1, l2, x);
        let p = t.last();
        let init1 = potion_draws(t.drop_last(), l1);
        let init2 = potion_draws(t.drop_last(), l2);
        let tail1 = if l1 >= p.level_required { seq![ItemView::Potion(p), ItemView::Potion(p)] } else { Seq::empty() };
        let tail2 = if l2 >= p.level_required { seq![ItemView::Potion(p), ItemView::Potion(p)] } else { Seq::empty() };
        assert(potion_draws(t, l1) == init1 + tail1);
        assert(potion_draws(t, l2) == init2 + tail2);
        assert forall|i: int| 0 <= i < potion_draws(t, l1).len() implies required_level(#[trigger] potion_draws(t, l1)[i]) <= l1 by {
            if i >= init1.len() {
                assert(potion_draws(t, l1)[i] == tail1[i - init1.len()]);
            } else {
                assert(potion_draws(t, l1)[i] == init1[i]);
            }
        }
        if l1 <= l2 && potion_draws(t, l1).contains(x) {
            let i = choose|i: int| 0 <= i < potion_draws(t, l1).len() && potion_draws(t, l1)[i] == x;
            if i < init1.len() {
                assert(init1[i] == x);
                assert(init2.contains(x));
                let j = choose|j: int| 0 <= j < init2.len() && init2[j] == x;
                assert(potion_draws(t, l2)[j] == x);
            } else {
                assert(tail1[i - init1.len()] == x);
                assert(potion_draws(t, l2)[init2.len() as int] == x);
            }
        }
    }
}

proof fn lemma_magic_draws(t: Seq<MagicView>, l1: u32, l2: u32, x: ItemView)
    ensures
        forall|i: int| 0 <= i < magic_draws(t, l1).len() ==> required_level(#[trigger] magic_draws(t, l1)[i]) <= l1,
        magic_draws(t, l1).len() == reachable_count(t, |m: MagicView| m.level_required, l1),
        l1 <= l2 && magic_draws(t, l1).contains(x) ==> magic_draws(t, l2).contains(x),
    decreases t.len(),
{
    if t.len() > 0 {
        lemma_magic_draws(t.drop_last(), l1, l2, x);
        let m = t.last();
        let init1 = magic_draws(t.drop_last(), l1);
        let init2 = magic_draws(t.drop_last(), l2);
        let tail1 = if l1 >= m.level_required { seq![ItemView::Magic(m)] } else { Seq::empty() };
        let tail2 = if l2 >= m.level_required { seq![ItemView::Magic(m)] } else { Seq::empty() };
        assert(magic_draws(t, l1) == init1 + tail1);
        assert(magic_draws(t, l2) == init2 + tail2);
        assert forall|i: int| 0 <= i < magic_draws(t, l1).len() implies required_level(#[trigger] magic_draws(t, l1)[i]) <= l1 by {
            if i >= init1.len() {
                assert(magic_draws(t, l1)[i] == tail1[i - init1.len()]);
            } else {
                assert(magic_draws(t, l1)[i] == init1[i]);
            }
        }
        if l1 <= l2 && magic_draws(t, l1).contains(x) {
            let i = choose|i: int| 0 <= i < magic_draws(t, l1).len() && magic_draws(t, l1)[i] == x;
            if i < init1.len() {
                assert(init1[i] == x);
                assert(init2.contains(x));
                let j = choose|j: int| 0 <= j < init2.len() && init2[j] == x;
                assert(magic_draws(t, l2)[j] == x);
            } else {
                assert(tail1[i - init1.len()] == x);
                assert(magic_draws(t, l2)[init2.len() as int] == x);
            }
        }
    }
}

/// No item of the pool of a level asks for more than that level.
pub proof fn lemma_pool_within_level(level: u32)
    ensures
        forall|i: int| 0 <= i < pool_spec(level).len() ==> required_level(#[trigger] pool_spec(level)[i]) <= level,
{
    let w = weapon_draws(weapon_table(), level);
    let p = potion_draws(potion_table(), level);
    let m = magic_draws(magic_table(), level);
    lemma_weapon_draws(weapon_table(), level, level, ItemView::Magic(magic_table()[0]));
    lemma_potion_draws(potion_table(), level, level, ItemView::Magic(magic_table()[0]));
    lemma_magic_draws(magic_table(), level, level, ItemView::Magic(magic_table()[0]));
    assert forall|i: int| 0 <= i < pool_spec(level).len() implies required_level(#[trigger] pool_spec(level)[i]) <= level by {
        if i < w.len() {
            assert(pool_spec(level)[i] == w[i]);
        } else if i < w.len() + p.len() {
            assert(pool_spec(level)[i] == p[i - w.len()]);
        } else {
            assert(pool_spec(level)[i] == m[i - w.len() - p.len()]);
        }
    }
}

/// The pool weighs its entries: each weapon of the level counts three
/// times, each potion twice, each spell once.
pub proof fn lemma_pool_weights(level: u32)
    ensures
        pool_spec(level).len() == 3 * reachable_count(weapon_table(), |w: WeaponView| w.level_required, level)
            + 2 * reachable_count(potion_table(), |p: PotionView| p.level_required, level)
            + reachable_count(magic_table(), |m: MagicView| m.level_required, level),
{
    lemma_weapon_draws(weapon_table(), level, level, ItemView::Magic(magic_table()[0]));
    lemma_potion_draws(potion_table(), level, level, ItemView::Magic(magic_table()[0]));
    lemma_magic_draws(magic_table(), level, level, ItemView::Magic(magic_table()[0]));
}

/// A higher level never loses an item: whatever can drop at one level can
/// drop at any higher one.
pub proof fn lemma_pool_grows_with_level(l1: u32, l2: u32, x: ItemView)
    requires
        l1 <= l2,
        pool_spec(l1).contains(x),
    ensures
        pool_spec(l2).contains(x),
{
    let w1 = weapon_draws(weapon_table(), l1);
    let p1 = potion_draws(potion_table(), l1);
    let m1 = magic_draws(magic_table(), l1);
    let w2 = weapon_draws(weapon_table(), l2);
    let p2 = potion_draws(potion_table(), l2);
    let m2 = magic_draws(magic_table(), l2);
    lemma_weapon_draws(weapon_table(), l1, l2, x);
    lemma_potion_draws(potion_table(), l1, l2, x);
    lemma_magic_draws(magic_table(), l1, l2, x);
    let i = choose|i: int| 0 <= i < pool_spec(l1).len() && pool_spec(l1)[i] == x;
    if i < w1.len() {
        assert(w1[i] == x);
        let j = choose|j: int| 0 <= j < w2.len() && w2[j] == x;
        assert(pool_spec(l2)[j] == x);
    } else if i < w1.len() + p1.len() {
        assert(p1[i - w1.len()] == x);
        let j = choose|j: int| 0 <= j < p2.len() && p2[j] == x;
        assert(pool_spec(l2)[w2.len() + j] == x);
    } else {
        assert(m1[i - w1.len() - p1.len()] == x);
        let j = choose|j: int| 0 <= j < m2.len() && m2[j] == x;
        assert(pool_spec(l2)[w2.len() + p2.len() + j] == x);
    }
}

/// Every entry of `t` asks for at most `level`.
pub open spec fn all_within<T>(t: Seq<T>, req: spec_fn(T) -> u32, level: u32) -> bool
    decreases t.len(),
{
    t.len() == 0 || (req(t.last()) <= level && all_within(t.drop_last(), req, level))
}

proof fn lemma_weapon_draws_nested(t: Seq<WeaponView>, l1: u32, l2: u32)
    requires
        l1 <= l2,
    ensures
        weapon_draws(t, l1).to_multiset().subset_of(weapon_draws(t, l2).to_multiset()),
        all_within(t, |w: WeaponView| w.level_required, l1) ==> weapon_draws(t, l1) == weapon_draws(t, l2),
    decreases t.len(),
{
    broadcast use vstd::multiset::group_multiset_axioms;
    if t.len() > 0 {
        lemma_weapon_draws_nested(t.drop_last(), l1, l2);
        let w = t.last();
        let init1 = weapon_draws(t.drop_last(), l1);
        let init2 = weapon_draws(t.drop_last(), l2);
        let tail1 = if l1 >= w.level_required { seq![ItemView::Weapon(w), ItemView::Weapon(w), ItemView::Weapon(w)] } else { Seq::empty() };
        let tail2 = if l2 >= w.level_required { seq![ItemView::Weapon(w), ItemView::Weapon(w), ItemView::Weapon(w)] } else { Seq::empty() };
        vstd::seq_lib::lemma_multiset_commutative(init1, tail1);
        vstd::seq_lib::lemma_multiset_commutative(init2, tail2);
        if l1 < w.level_required {
            tail1.to_multiset_ensures();
            vstd::multiset::lemma_multiset_empty_len(tail1.to_multiset());
        }
    }
}

proof fn lemma_potion_draws_nested(t: Seq<PotionView>, l1: u32, l2: u32)
    requires
        l1 <= l2,
    ensures
        potion_draws(t, l1).to_multiset().subset_of(potion_draws(t, l2).to_multiset()),
        all_within(t, |p: PotionView| p.level_required, l1) ==> potion_draws(t, l1) == potion_draws(t, l2),
    decreases t.len(),
{
    broadcast use vstd::multiset::group_multiset_axioms;
    if t.len() > 0 {
        lemma_potion_draws_nested(t.drop_last(), l1, l2);
        let p = t.last();
        let init1 = potion_draws(t.drop_last(), l1);
        let init2 = potion_draws(t.drop_last(), l2);
        let tail1 = if l1 >= p.level_required { seq![ItemView::Potion(p), ItemView::Potion(p)] } else { Seq::empty() };
        let tail2 = if l2 >= p.level_required { seq![ItemView::Potion(p), ItemView::Potion(p)] } else { Seq::empty() };
        vstd::seq_lib::lemma_multiset_commutative(init1, tail1);
        vstd::seq_lib::lemma_multiset_commutative(init2, tail2);
        if l1 < p.level_required {
            tail1.to_multiset_ensures();
            vstd::multiset::lemma_multiset_empty_len(tail1.to_multiset());
        }
    }
}

proof fn lemma_magic_draws_nested(t: Seq<MagicView>, l1: u32, l2: u32)
    requires
        l1 <= l2,
    ensures
        magic_draws(t, l1).to_multiset().subset_of(magic_draws(t, l2).to_multiset()),
        all_within(t, |m: MagicView| m.level_required, l1) ==> magic_draws(t, l1) == magic_draws(t, l2),
    decreases t.len(),
{
    broadcast use vstd::multiset::group_multiset_axioms;
    if t.len() > 0 {
        lemma_magic_draws_nested(t.drop_last(), l1, l2);
        let m = t.last();
        let init1 = magic_draws(t.drop_last(), l1);
        let init2 = magic_draws(t.drop_last(), l2);
        let tail1 = if l1 >= m.level_required { seq![ItemView::Magic(m)] } else { Seq::empty() };
        let tail2 = if l2 >= m.level_required { seq![ItemView::Magic(m)] } else { Seq::empty() };
        vstd::seq_lib::lemma_multiset_commutative(init1, tail1);
        vstd::seq_lib::lemma_multiset_commutative(init2, tail2);
        if l1 < m.level_required {
            tail1.to_multiset_ensures();
            vstd::multiset::lemma_multiset_empty_len(tail1.to_multiset());
        }
    }
}

/// A higher level keeps every item at least as often: the pool of a level,
/// counting repeats, is contained in the pool of any higher level; and from
/// level 5 on, where every item can drop, the pools are the same.
pub proof fn lemma_pool_nested(l1: u32, l2: u32)
    requires
        l1 <= l2,
    ensures
        pool_spec(l1).to_multiset().subset_of(pool_spec(l2).to_multiset()),
        l1 >= 5 ==> pool_spec(l1) == pool_spec(l2),
{
    broadcast use vstd::multiset::group_multiset_axioms;
    let w1 = weapon_draws(weapon_table(), l1);
    let p1 = potion_draws(potion_table(), l1);
    let m1 = magic_draws(magic_table(), l1);
    let w2 = weapon_draws(weapon_table(), l2);
    let p2 = potion_draws(potion_table(), l2);
    let m2 = magic_draws(magic_table(), l2);
    lemma_weapon_draws_nested(weapon_table(), l1, l2);
    lemma_potion_draws_nested(potion_table(), l1, l2);
    lemma_magic_draws_nested(magic_table(), l1, l2);
    vstd::seq_lib::lemma_multiset_commutative(w1, p1);
    vstd::seq_lib::lemma_multiset_commutative(w1 + p1, m1);
    vstd::seq_lib::lemma_multiset_commutative(w2, p2);
    vstd::seq_lib::lemma_multiset_commutative(w2 + p2, m2);
    if l1 >= 5 {
        reveal_with_fuel(all_within, 14);
        assert(all_within(weapon_table(), |w: WeaponView| w.level_required, 5));
        assert(all_within(potion_table(), |p: PotionView| p.level_required, 5));
        assert(all_within(magic_table(), |m: MagicView| m.level_required, 5));
        lemma_all_within_raise(weapon_table(), |w: WeaponView| w.level_required, 5, l1);
        lemma_all_within_raise(potion_table(), |p: PotionView| p.level_required, 5, l1);
        lemma_all_within_raise(magic_table(), |m: MagicView| m.level_required, 5, l1);
    }
}

proof fn lemma_all_within_raise<T>(t: Seq<T>, req: spec_fn(T) -> u32, l1: u32, l2: u32)
    requires
        all_within(t, req, l1),
        l1 <= l2,
    ensures
        all_within(t, req, l2),
    decreases t.len(),
{
    if t.len() > 0 {
        lemma_all_within_raise(t.drop_last(), req, l1, l2);
    }
}

/// The views of a list of items.
pub open spec fn views(items: Seq<Item>) -> Seq<ItemView> {
    items.map_values(|it: Item| it@)
}

proof fn lemma_views_push(items: Seq<Item>, it: Item)
    ensures
        views(items.push(it)) == views(items).push(it@),
{
    assert(views(items.push(it)) =~= views(items).push(it@));
}

/// The pool of items for a hero of `level`, as in [`pool_spec`].
pub fn get_items_pool(level: u32) -> (pool: Vec<Item>)
    ensures
        views(pool@) == pool_spec(level),
{
    let mut pool: Vec<Item> = Vec::new();
    let ws = weapons();
    let mut i: usize = 0;
    while i < ws.len()
        invariant
            i <= ws@.len(),
            ws@.len() == weapon_table().len(),
            forall|j: int| 0 <= j < ws@.len() ==> (#[trigger] ws@[j]).view() == weapon_table()[j],
            views(pool@) == weapon_draws(weapon_table().take(i as int), level),
        decreases ws@.len() - i,
    {
        let w = &ws[i];
        assert(weapon_table().take(i as int + 1).drop_last() == weapon_table().take(i as int));
        assert(weapon_table().take(i as int + 1).last() == w@);
        if level >= w.level_required {
            let mut k: usize = 0;
            while k < 3
                invariant
                    k <= 3,
                    views(pool@) == weapon_draws(weapon_table().take(i as int), level) + Seq::new(k as nat, |x: int| ItemView::Weapon(w@)),
                decreases 3 - k,
            {
                let ghost before = pool@;
                pool.push(Item::Weapon(w.duplicate()));
                proof {
                    lemma_views_push(before, Item::Weapon(*w));
                    assert(Seq::new((k + 1) as nat, |x: int| ItemView::Weapon(w@)) =~= Seq::new(k as nat, |x: int| ItemView::Weapon(w@)).push(ItemView::Weapon(w@)));
                }
                k = k + 1;
            }
            assert(Seq::new(3, |x: int| ItemView::Weapon(w@)) =~= seq![ItemView::Weapon(w@), ItemView::Weapon(w@), ItemView::Weapon(w@)]);
        }
        i = i + 1;
    }
    assert(weapon_table().take(ws@.len() as int) == weapon_table());
    let ghost after_weapons = views(pool@);
    let ps = potions();
    let mut i: usize = 0;
    while i < ps.len()
        invariant
            i <= ps@.len(),
            ps@.len() == potion_table().len(),
            forall|j: int| 0 <= j < ps@.len() ==> (#[trigger] ps@[j]).view() == potion_table()[j],
            after_weapons == weapon_draws(weapon_table(), level),
            views(pool@) == after_weapons + potion_draws(potion_table().take(i as int), level),
        decreases ps@.len() - i,
    {
        let p = &ps[i];
        assert(potion_table().take(i as int + 1).drop_last() == potion_table().take(i as int));
        assert(potion_table().take(i as int + 1).last() == p@);
        if level >= p.level_required {
            let ghost before = pool@;
            pool.push(Item::Potion(p.duplicate()));
            proof { lemma_views_push(before, Item::Potion(*p)); }
            let ghost mid = pool@;
            pool.push(Item::Potion(p.duplicate()));
            proof { lemma_views_push(mid, Item::Potion(*p)); }
            assert(views(pool@) =~= after_weapons + potion_draws(potion_table().take(i as int + 1), level));
        } else {
            assert(views(pool@) =~= after_weapons + potion_draws(potion_table().take(i as int + 1), level));
        }
        i = i + 1;
    }
    assert(potion_table().take(ps@.len() as int) == potion_table());
    let ghost after_potions = views(pool@);
    let ms = magics();
    let mut i: usize = 0;
    while i < ms.len()
        invariant
            i <= ms@.len(),
            ms@.len() == magic_table().len(),
            forall|j: int| 0 <= j < ms@.len() ==> (#[trigger] ms@[j]).view() == magic_table()[j],
            after_potions == weapon_draws(weapon_table(), level) + potion_draws(potion_table(), level),
            views(pool@) == after_potions + magic_draws(magic_table().take(i as int), level),
        decreases ms@.len() - i,
    {
        let m = &ms[i];
        assert(magic_table().take(i as int + 1).drop_last() == magic_table().take(i as int));
        assert(magic_table().take(i as int + 1).last() == m@);
        if level >= m.level_required {
            let ghost before = pool@;
            pool.push(Item::Magic(m.duplicate()));
            proof { lemma_views_push(before, Item::Magic(*m)); }
            assert(views(pool@) =~= after_potions + magic_draws(magic_table().take(i as int + 1), level));
        } else {
            assert(views(pool@) =~= after_potions + magic_draws(magic_table().take(i as int + 1), level));
        }
        i = i + 1;
    }
    assert(magic_table().take(ms@.len() as int) == magic_table());
    pool
}

/// The item at index `pick` modulo the size of the pool for `level`, or
/// `None` when the pool is empty.
pub fn pick_item(level: u32, pick: usize) -> (item: Option<Item>)
    ensures
        match item {
            Some(it) => pool_spec(level).len() > 0 && it@ == pool_spec(level)[pick as int % pool_spec(level).len() as int],
            None => pool_spec(level).len() == 0,
        },
{
    let pool = get_items_pool(level);
    if pool.len() == 0 {
        return None;
    }
    let idx = pick % pool.len();
    assert(views(pool@)[idx as int] == pool@[idx as int]@);
    Some(pool[idx].duplicate())
}

/// An item drawn at random from the pool for `level`, or `None` when the pool
/// is empty.
pub fn roll_item(level: u32) -> (item: Option<Item>)
    ensures
        match item {
            Some(it) => pool_spec(level).contains(it@),
            None => pool_spec(level).len() == 0,
        },
{
    let pool = get_items_pool(level);
    if pool.len() == 0 {
        return None;
    }
    let idx = random_index(pool.len());
    assert(views(pool@)[idx as int] == pool@[idx as int]@);
    assert(pool_spec(level)[idx as int] == pool@[idx as int]@);
    Some(pool[idx].duplicate())
}

} // verus!
