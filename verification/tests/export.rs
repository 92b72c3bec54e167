use remate_agricola::export::{
    conversion_result, converter_call, find_extension_dot, pdf_output_path, ConverterExit,
};

#[test]
fn html_extension_becomes_pdf() {
    assert_eq!(pdf_output_path("informe.html"), "informe.pdf");
    assert_eq!(pdf_output_path("/tmp/remates/informe.html"), "/tmp/remates/informe.pdf");
    assert_eq!(pdf_output_path("C:\\remates\\informe.html"), "C:\\remates\\informe.pdf");
}

#[test]
fn only_the_last_extension_is_replaced() {
    assert_eq!(pdf_output_path("a.html.html"), "a.html.pdf");
    assert_eq!(pdf_output_path("dir.html/informe.html"), "dir.html/informe.pdf");
    assert_eq!(pdf_output_path("informe.htm"), "informe.pdf");
    assert_eq!(pdf_output_path("informe."), "informe.pdf");
    assert_eq!(pdf_output_path("año.html"), "año.pdf");
    assert_eq!(pdf_output_path(".html"), ".pdf");
    assert_eq!(pdf_output_path("dir/.html"), "dir/.pdf");
    assert_eq!(pdf_output_path("../informe.html"), "../informe.pdf");
}

#[test]
fn a_path_without_extension_stays_as_it_is() {
    assert_eq!(pdf_output_path("informe"), "informe");
    assert_eq!(pdf_output_path(""), "");
    assert_eq!(pdf_output_path("/"), "/");
    assert_eq!(pdf_output_path("dir.d/informe"), "dir.d/informe");
    assert_eq!(pdf_output_path("dir.d\\informe"), "dir.d\\informe");
}

#[test]
fn the_extension_dot_is_found_by_character_not_by_byte() {
    assert_eq!(find_extension_dot("año.html"), Some(3));
    assert_eq!(find_extension_dot("a.b.c"), Some(3));
    assert_eq!(find_extension_dot("abc"), None);
    assert_eq!(find_extension_dot("/.abc"), Some(1));
    assert_eq!(find_extension_dot("a.b/c"), None);
    assert_eq!(find_extension_dot("a.b\\c"), None);
}

#[test]
fn the_converter_is_called_with_script_input_and_output() {
    let call = converter_call("salida/informe.html");
    assert_eq!(call.program, "node");
    assert_eq!(
        call.arguments,
        vec![
            "convertToPdf.js".to_string(),
            "salida/informe.html".to_string(),
            "salida/informe.pdf".to_string()
        ]
    );
}

#[test]
fn a_failed_conversion_is_a_message() {
    assert_eq!(conversion_result(ConverterExit::Succeeded), Ok(()));
    assert_eq!(
        conversion_result(ConverterExit::Failed),
        Err("Error al convertir HTML a PDF".to_string())
    );
    assert_eq!(
        conversion_result(ConverterExit::NotStarted),
        Err("Failed to execute Puppeteer".to_string())
    );
}
