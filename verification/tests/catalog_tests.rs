use pingtest::catalog::{is_closer, Server, ServerCatalog};
use pingtest::error::{MeasureError, NetworkError};

fn server(id: u32, name: &str, location: &str, distance_m: u64) -> Server {
    Server { id, name: name.to_string(), location: location.to_string(), distance_m }
}

fn directory() -> Vec<Server> {
    vec![
        server(4021, "Northwind", "Oslo", 412_000),
        server(118, "Fibernet", "Hamburg", 97_500),
        server(77, "Citylink", "Bremen", 97_500),
        server(90210, "Farnet", "Lisbon", 2_210_000),
        server(5, "Localhost Ltd", "Here", 0),
    ]
}

fn catalog() -> ServerCatalog {
    match ServerCatalog::from_directory(Some(directory())) {
        Ok(catalog) => catalog,
        Err(error) => panic!("catalog rejected: {}", error.message()),
    }
}

fn ids(servers: &Vec<Server>) -> Vec<u32> {
    servers.iter().map(|s| s.id).collect()
}

#[test]
fn test_server_selection() {
    let servers = ServerCatalog::from_directory(Some(directory()));
    assert!(servers.is_ok());

    let catalog = servers.unwrap();
    let server_list = catalog.get_servers();
    assert!(!server_list.is_empty());

    // Test getting nearest servers
    let nearest_servers = catalog.get_nearest_servers(3);
    assert!(nearest_servers.len() <= 3);
    assert_eq!(ids(&nearest_servers), vec![5, 77, 118]);
}

#[test]
fn get_servers_keeps_the_listing() {
    let catalog = catalog();
    assert_eq!(catalog.len(), 5);
    let servers = catalog.get_servers();
    assert_eq!(ids(&servers), vec![4021, 118, 77, 90210, 5]);
    assert_eq!(servers[0].name, "Northwind");
    assert_eq!(servers[3].location, "Lisbon");
    assert_eq!(servers[1].distance_m, 97_500);
}

#[test]
fn nearest_servers_come_in_order_of_distance_then_identifier() {
    let catalog = catalog();
    let all = catalog.get_nearest_servers(5);
    assert_eq!(ids(&all), vec![5, 77, 118, 4021, 90210]);
    for pair in all.windows(2) {
        assert!(pair[0].distance_m <= pair[1].distance_m);
        assert!(is_closer(&pair[0], &pair[1]));
    }
    assert_eq!(all[1].name, "Citylink");
    assert_eq!(all[2].location, "Hamburg");
}

#[test]
fn nearest_servers_are_as_many_as_asked_for_or_all() {
    let catalog = catalog();
    assert_eq!(catalog.get_nearest_servers(0).len(), 0);
    assert_eq!(ids(&catalog.get_nearest_servers(1)), vec![5]);
    assert_eq!(ids(&catalog.get_nearest_servers(2)), vec![5, 77]);
    assert_eq!(catalog.get_nearest_servers(5).len(), 5);
    assert_eq!(catalog.get_nearest_servers(6).len(), 5);
    assert_eq!(catalog.get_nearest_servers(usize::MAX).len(), 5);
    assert_eq!(ids(&catalog.get_nearest_servers(usize::MAX)), vec![5, 77, 118, 4021, 90210]);
}

#[test]
fn the_nearest_server_is_the_first_of_the_ranking() {
    let catalog = catalog();
    let nearest = catalog.nearest();
    assert_eq!(nearest.id, 5);
    assert_eq!(nearest.name, "Localhost Ltd");
    let only = ServerCatalog::from_directory(Some(vec![server(9, "Solo", "Far", u64::MAX)]));
    assert_eq!(only.unwrap().nearest().id, 9);
}

#[test]
fn ranking_leaves_the_catalog_as_it_is() {
    let catalog = catalog();
    let _ = catalog.get_nearest_servers(3);
    let _ = catalog.nearest();
    assert_eq!(ids(&catalog.get_servers()), vec![4021, 118, 77, 90210, 5]);
}

#[test]
fn an_unreachable_directory_is_a_network_error() {
    let result = ServerCatalog::from_directory(None);
    assert!(matches!(result, Err(MeasureError::Network(NetworkError::DirectoryUnreachable))));
}

#[test]
fn an_empty_listing_offers_no_server() {
    let result = ServerCatalog::from_directory(Some(Vec::new()));
    assert!(matches!(result, Err(MeasureError::Network(NetworkError::NoReachableServer))));
}

#[test]
fn a_listing_with_improper_identifiers_is_refused() {
    let twice = vec![server(7, "A", "X", 10), server(8, "B", "Y", 20), server(7, "C", "Z", 30)];
    assert!(matches!(
        ServerCatalog::from_directory(Some(twice)),
        Err(MeasureError::Network(NetworkError::DirectoryMalformed))
    ));
    let zero = vec![server(0, "A", "X", 10)];
    assert!(matches!(
        ServerCatalog::from_directory(Some(zero)),
        Err(MeasureError::Network(NetworkError::DirectoryMalformed))
    ));
    let large = vec![server(3, "A", "X", 10), server(1_000_000, "B", "Y", 20)];
    assert!(matches!(
        ServerCatalog::from_directory(Some(large)),
        Err(MeasureError::Network(NetworkError::DirectoryMalformed))
    ));
    let edge = vec![server(1, "A", "X", 10), server(999_999, "B", "Y", 20)];
    assert!(ServerCatalog::from_directory(Some(edge)).is_ok());
}

#[test]
fn a_copy_of_a_server_equals_it() {
    let first = server(12, "Name", "Place", 1_500);
    let copy = first.clone();
    assert_eq!(copy.id, 12);
    assert_eq!(copy.name, "Name");
    assert_eq!(copy.location, "Place");
    assert_eq!(copy.distance_m, 1_500);
}
