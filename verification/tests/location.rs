use event_store::location::{Location, LocationError, UrlParts};
use url::Url;

fn parts(address: &str) -> UrlParts {
    let url = Url::parse(address).unwrap();
    UrlParts {
        scheme: url.scheme().to_string(),
        has_authority: url.has_authority(),
        authority: url.authority().to_string(),
        fragment: url.fragment().map(str::to_string),
        path: url.path().to_string(),
        query: url.query().map(str::to_string),
    }
}

#[test]
fn without_a_path_the_store_is_in_memory() {
    assert_eq!(parts("sqlite://").location(), Ok(Location::Memory));
    assert_eq!(parts("sqlite://?mode=ro").location(), Ok(Location::Memory));
}

#[test]
fn a_path_is_a_file_below_the_working_directory() {
    assert_eq!(
        parts("sqlite:///relative/foo.db").location(),
        Ok(Location::File {
            path: "relative/foo.db".to_string(),
            query: None
        })
    );
    assert_eq!(
        parts("sqlite:///").location(),
        Ok(Location::File {
            path: "".to_string(),
            query: None
        })
    );
}

#[test]
fn two_slashes_are_an_absolute_path() {
    assert_eq!(
        parts("sqlite:////absolute/foo.db?mode=ro&cache=shared").location(),
        Ok(Location::File {
            path: "/absolute/foo.db".to_string(),
            query: Some("mode=ro&cache=shared".to_string())
        })
    );
}

#[test]
fn other_addresses_name_no_store() {
    assert_eq!(
        parts("file:///foo.db").location(),
        Err(LocationError::Scheme)
    );
    assert_eq!(
        parts("sqlite://host/foo.db").location(),
        Err(LocationError::Authority)
    );
    assert_eq!(
        parts("sqlite:/foo.db").location(),
        Err(LocationError::Authority)
    );
    assert_eq!(
        parts("sqlite:///foo.db#part").location(),
        Err(LocationError::Fragment)
    );
    assert_eq!(
        parts("http://host/foo.db#part").location(),
        Err(LocationError::Scheme)
    );
}

#[test]
fn a_path_begins_with_a_slash() {
    let address = UrlParts {
        scheme: "sqlite".to_string(),
        has_authority: true,
        authority: String::new(),
        fragment: None,
        path: "foo.db".to_string(),
        query: None,
    };
    assert_eq!(address.location(), Err(LocationError::Path));
    let address = UrlParts {
        path: "/ü/ö.db".to_string(),
        query: Some(String::new()),
        ..address
    };
    assert_eq!(
        address.location(),
        Ok(Location::File {
            path: "ü/ö.db".to_string(),
            query: Some(String::new())
        })
    );
}
