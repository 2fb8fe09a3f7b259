[package]
name = "stm_usb"
version = "0.1.0"
edition = "2021"
publish = false

[dependencies]
heapless = "=0.8.0"
dfu-core = { version = "=0.11.1", features = ["async"] }
embassy-usb = "=0.6.0"
embassy-usb-dfu = { version = "=0.3.0", features = ["application"] }
embassy-futures = "=0.1.2"
embassy-time = "=0.5.1"
embassy-executor = "=0.10.0"
embassy-stm32 = { version = "=0.6.0", features = ["stm32f411ce", "time-driver-any", "memory-x"] }
cortex-m = "=0.7.10"
cortex-m-rt = "=0.7.7"
defmt = "=1.2.0"
defmt-rtt = "=1.3.1"
panic-probe = "=1.0.0"
static_cell = "=2.1.1"
wasm-bindgen = "=0.2.130"
wasm-bindgen-futures = "=0.4.80"
js-sys = "=0.3.107"
send_wrapper = "=0.6.0"
console_error_panic_hook = "=0.1.7"
web-sys = { version = "=0.3.107", features = ["console", "Document", "Element", "HtmlElement", "HtmlTextAreaElement", "CssStyleDeclaration", "DomTokenList", "Navigator", "Window", "Usb", "UsbDevice", "UsbDeviceFilter", "UsbDeviceRequestOptions", "UsbControlTransferParameters", "UsbRecipient", "UsbRequestType", "UsbTransferStatus", "UsbInTransferResult", "UsbOutTransferResult", "UsbConfiguration"] }
