use vstd::prelude::*;
use vstd::string::*;
use crate::orb::{decimal, decimal_text};
use crate::protocol::text;
use crate::status::{STATUS_NOT_FOUND, STATUS_OK};

verus! {

/// A product of the store. Prices are kept in cents.
pub struct Product {
    pub id: String,
    pub name: String,
    pub description: String,
    pub price_cents: u64,
    pub category: String,
    pub stock: u32,
    pub image_url: String,
}

/// A product as the specifications see it.
pub struct ProductView {
    pub id: Seq<char>,
    pub name: Seq<char>,
    pub description: Seq<char>,
    pub price_cents: u64,
    pub category: Seq<char>,
    pub stock: u32,
    pub image_url: Seq<char>,
}

impl View for Product {
    type V = ProductView;

    open spec fn view(&self) -> ProductView {
        ProductView {
            id: self.id@,
            name: self.name@,
            description: self.description@,
            price_cents: self.price_cents,
            category: self.category@,
            stock: self.stock,
            image_url: self.image_url@,
        }
    }
}

impl Product {
    /// A copy of this product.
    pub fn duplicate(&self) -> (r: Product)
        ensures
            r@ == self@,
    {
        Product {
            id: self.id.clone(),
            name: self.name.clone(),
            description: self.description.clone(),
            price_cents: self.price_cents,
            category: self.category.clone(),
            stock: self.stock,
            image_url: self.image_url.clone(),
        }
    }
}

/// `prefix`, then `n` in decimal, then `suffix`.
pub(crate) fn count_text(prefix: &str, n: usize, suffix: &str) -> (s: String)
    ensures
        s@ == prefix@ + decimal(n as nat) + suffix@,
{
    let mut s = text(prefix);
    s.append(decimal_text(n as u64).as_str());
    s.append(suffix);
    s
}

/// The products of the store, in the order in which they are listed.
pub open spec fn product_table() -> Seq<ProductView> {
    seq![
        ProductView { id: "item-001"@, name: "Laptop Pro X"@, description: "Laptop de alto rendimiento con 16GB RAM y 512GB SSD"@, price_cents: 2499900, category: "Electrónica"@, stock: 15, image_url: "https://placehold.co/400x300/1a1a2e/e94560?text=Laptop+Pro+X"@ },
        ProductView { id: "item-002"@, name: "Auriculares Quantum"@, description: "Auriculares inalámbricos con cancelación de ruido activa"@, price_cents: 349900, category: "Audio"@, stock: 42, image_url: "https://placehold.co/400x300/1a1a2e/e94560?text=Auriculares"@ },
        ProductView { id: "item-003"@, name: "Smartwatch Nexus"@, description: "Reloj inteligente con monitor cardíaco y GPS integrado"@, price_cents: 599900, category: "Wearables"@, stock: 28, image_url: "https://placehold.co/400x300/1a1a2e/e94560?text=Smartwatch"@ },
        ProductView { id: "item-004"@, name: "Teclado Mecánico RGB"@, description: "Teclado mecánico con switches Cherry MX y retroiluminación RGB"@, price_cents: 219900, category: "Periféricos"@, stock: 60, image_url: "https://placehold.co/400x300/1a1a2e/e94560?text=Teclado"@ },
        ProductView { id: "item-005"@, name: "Monitor UltraWide 34\""@, description: "Monitor curvo ultrawide 4K con 144Hz y HDR10"@, price_cents: 1850000, category: "Monitores"@, stock: 8, image_url: "https://placehold.co/400x300/1a1a2e/e94560?text=Monitor+UW"@ },
        ProductView { id: "item-006"@, name: "SSD NVMe 2TB"@, description: "Disco sólido NVMe con velocidades de hasta 7000 MB/s"@, price_cents: 189900, category: "Almacenamiento"@, stock: 100, image_url: "https://placehold.co/400x300/1a1a2e/e94560?text=SSD+NVMe"@ },
        ProductView { id: "item-007"@, name: "Mouse Inalámbrico Pro"@, description: "Mouse ergonómico con sensor de 25,600 DPI y batería de 70 horas"@, price_cents: 129900, category: "Periféricos"@, stock: 75, image_url: "https://placehold.co/400x300/1a1a2e/e94560?text=Mouse+Pro"@ },
        ProductView { id: "item-008"@, name: "Webcam 4K Stream"@, description: "Cámara web 4K con micrófono integrado y autofoco"@, price_cents: 279900, category: "Video"@, stock: 33, image_url: "https://placehold.co/400x300/1a1a2e/e94560?text=Webcam+4K"@ },
        ProductView { id: "item-009"@, name: "Hub USB-C 12 en 1"@, description: "Hub multipuerto con HDMI 4K, USB 3.2, SD card y carga rápida 100W"@, price_cents: 89900, category: "Accesorios"@, stock: 90, image_url: "https://placehold.co/400x300/1a1a2e/e94560?text=Hub+USB-C"@ },
        ProductView { id: "item-010"@, name: "Tablet Creator 12"@, description: "Tableta gráfica profesional con pantalla OLED y lápiz de 8192 niveles"@, price_cents: 1299900, category: "Creación"@, stock: 20, image_url: "https://placehold.co/400x300/1a1a2e/e94560?text=Tablet+Pro"@ },
    ]
}

/// The products of the store.
pub fn products() -> (v: Vec<Product>)
    ensures
        v@.len() == product_table().len(),
        forall|i: int| 0 <= i < v@.len() ==> (#[trigger] v@[i]).view() == product_table()[i],
{
    let mut v: Vec<Product> = Vec::new();
    v.push(Product {
        id: text("item-001"),
        name: text("Laptop Pro X"),
        description: text("Laptop de alto rendimiento con 16GB RAM y 512GB SSD"),
        price_cents: 2499900,
        category: text("Electrónica"),
        stock: 15,
        image_url: text("https://placehold.co/400x300/1a1a2e/e94560?text=Laptop+Pro+X"),
    });
    v.push(Product {
        id: text("item-002"),
        name: text("Auriculares Quantum"),
        description: text("Auriculares inalámbricos con cancelación de ruido activa"),
        price_cents: 349900,
        category: text("Audio"),
        stock: 42,
        image_url: text("https://placehold.co/400x300/1a1a2e/e94560?text=Auriculares"),
    });
    v.push(Product {
        id: text("item-003"),
        name: text("Smartwatch Nexus"),
        description: text("Reloj inteligente con monitor cardíaco y GPS integrado"),
        price_cents: 599900,
        category: text("Wearables"),
        stock: 28,
        image_url: text("https://placehold.co/400x300/1a1a2e/e94560?text=Smartwatch"),
    });
    v.push(Product {
        id: text("item-004"),
        name: text("Teclado Mecánico RGB"),
        description: text("Teclado mecánico con switches Cherry MX y retroiluminación RGB"),
        price_cents: 219900,
        category: text("Periféricos"),
        stock: 60,
        image_url: text("https://placehold.co/400x300/1a1a2e/e94560?text=Teclado"),
    });
    v.push(Product {
        id: text("item-005"),
        name: text("Monitor UltraWide 34\""),
        description: text("Monitor curvo ultrawide 4K con 144Hz y HDR10"),
        price_cents: 1850000,
        category: text("Monitores"),
        stock: 8,
        image_url: text("https://placehold.co/400x300/1a1a2e/e94560?text=Monitor+UW"),
    });
    v.push(Product {
        id: text("item-006"),
        name: text("SSD NVMe 2TB"),
        description: text("Disco sólido NVMe con velocidades de hasta 7000 MB/s"),
        price_cents: 189900,
        category: text("Almacenamiento"),
        stock: 100,
        image_url: text("https://placehold.co/400x300/1a1a2e/e94560?text=SSD+NVMe"),
    });
    v.push(Product {
        id: text("item-007"),
        name: text("Mouse Inalámbrico Pro"),
        description: text("Mouse ergonómico con sensor de 25,600 DPI y batería de 70 horas"),
        price_cents: 129900,
        category: text("Periféricos"),
        stock: 75,
        image_url: text("https://placehold.co/400x300/1a1a2e/e94560?text=Mouse+Pro"),
    });
    v.push(Product {
        id: text("item-008"),
        name: text("Webcam 4K Stream"),
        description: text("Cámara web 4K con micrófono integrado y autofoco"),
        price_cents: 279900,
        category: text("Video"),
        stock: 33,
        image_url: text("https://placehold.co/400x300/1a1a2e/e94560?text=Webcam+4K"),
    });
    v.push(Product {
        id: text("item-009"),
        name: text("Hub USB-C 12 en 1"),
        description: text("Hub multipuerto con HDMI 4K, USB 3.2, SD card y carga rápida 100W"),
        price_cents: 89900,
        category: text("Accesorios"),
        stock: 90,
        image_url: text("https://placehold.co/400x300/1a1a2e/e94560?text=Hub+USB-C"),
    });
    v.push(Product {
        id: text("item-010"),
        name: text("Tablet Creator 12"),
        description: text("Tableta gráfica profesional con pantalla OLED y lápiz de 8192 niveles"),
        price_cents: 1299900,
        category: text("Creación"),
        stock: 20,
        image_url: text("https://placehold.co/400x300/1a1a2e/e94560?text=Tablet+Pro"),
    });
    proof {
        assert forall|i: int| 0 <= i < v@.len() implies (#[trigger] v@[i]).view() == product_table()[i] by {}
    }
    v
}

/// A page of the catalogue: the first products, how many, and a message
/// that says so.
pub struct ItemsPage {
    pub success: bool,
    pub message: String,
    pub data: Vec<Product>,
    pub total: usize,
}

/// How many products a request for `length` of them gets: all of them when
/// it names no number, never more than there are.
pub open spec fn page_len(length: Option<usize>) -> nat {
    let all = product_table().len();
    match length {
        Some(n) => if n < all { n as nat } else { all },
        None => all,
    }
}

/// `GET /items?length=N`: the first `N` products (all of them without `N`).
pub fn get_items(length: Option<usize>) -> (page: ItemsPage)
    ensures
        page.success,
        page.total == page_len(length),
        page.data@.len() == page_len(length),
        forall|i: int| 0 <= i < page.data@.len() ==> (#[trigger] page.data@[i])@ == product_table()[i],
        page.message@ == "Se retornaron "@ + decimal(page_len(length)) + " items"@,
{
    let all = products();
    let n = match length {
        Some(k) => if k < all.len() { k } else { all.len() },
        None => all.len(),
    };
    let mut data: Vec<Product> = Vec::new();
    let mut i: usize = 0;
    while i < n
        invariant
            n <= all@.len(),
            all@.len() == product_table().len(),
            forall|j: int| 0 <= j < all@.len() ==> (#[trigger] all@[j])@ == product_table()[j],
            i <= n,
            data@.len() == i,
            forall|j: int| 0 <= j < i ==> (#[trigger] data@[j])@ == product_table()[j],
        decreases n - i,
    {
        data.push(all[i].duplicate());
        i = i + 1;
    }
    let message = count_text("Se retornaron ", n, " items");
    ItemsPage { success: true, message, data, total: n }
}

/// The answer to a lookup of one product.
pub struct ItemLookup {
    pub status: u16,
    pub success: bool,
    pub message: String,
    pub data: Option<Product>,
}

/// `i` is the first position of a product with this id.
pub open spec fn first_with_id(t: Seq<ProductView>, id: Seq<char>, i: int) -> bool {
    &&& 0 <= i < t.len()
    &&& t[i].id == id
    &&& forall|j: int| 0 <= j < i ==> t[j].id != id
}

/// `GET /items/{id}`: the product with this id, or 404.
pub fn get_item_by_id(id: &String) -> (r: ItemLookup)
    ensures
        match r.data {
            Some(p) => {
                &&& r.status == STATUS_OK
                &&& r.success
                &&& r.message@ == "Item encontrado"@
                &&& exists|i: int| first_with_id(product_table(), id@, i) && p@ == product_table()[i]
            },
            None => {
                &&& r.status == STATUS_NOT_FOUND
                &&& !r.success
                &&& r.message@ == "Item no encontrado"@
                &&& forall|i: int| 0 <= i < product_table().len() ==> product_table()[i].id != id@
            },
        },
{
    let all = products();
    let mut i: usize = 0;
    while i < all.len()
        invariant
            all@.len() == product_table().len(),
            forall|j: int| 0 <= j < all@.len() ==> (#[trigger] all@[j])@ == product_table()[j],
            i <= all@.len(),
            forall|j: int| 0 <= j < i ==> product_table()[j].id != id@,
        decreases all@.len() - i,
    {
        if all[i].id == *id {
            assert(first_with_id(product_table(), id@, i as int));
            return ItemLookup { status: STATUS_OK, success: true, message: text("Item encontrado"), data: Some(all[i].duplicate()) };
        }
        i = i + 1;
    }
    ItemLookup { status: STATUS_NOT_FOUND, success: false, message: text("Item no encontrado"), data: None }
}

} // verus!
